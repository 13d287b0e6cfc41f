//! The local branches.

use herdr_strays::git::branch::{base_for, list, parse, parse_track, Branch};
use herdr_strays::git::run::GitError;
use herdr_strays::model::Upstream;

/// A repository with a branch checked out that tracks a remote, and one that
/// tracks nothing.
const BRANCHED: &[u8] = b"\
feature\x00af0314c\x00Ada Lovelace\x001785960271\x00\x00\x00 \x00work on the branch\x00\n\
main\x00dd2fd16\x00Ada Lovelace\x001785960270\x00origin/main\x00[ahead 1]\x00*\x00the first commit\x00\n";

fn branched() -> Vec<Branch> {
    list(&Ok(BRANCHED.to_vec()))
}

#[test]
fn every_local_branch_is_listed() {
    let branches = branched();

    let names: Vec<&str> = branches.iter().map(|b| b.name.as_str()).collect();
    assert!(names.contains(&"main"), "got {names:?}");
    assert!(names.contains(&"feature"), "got {names:?}");
}

#[test]
fn the_checked_out_branch_is_marked_as_current() {
    let branches = branched();

    let current: Vec<&str> = branches
        .iter()
        .filter(|b| b.current)
        .map(|b| b.name.as_str())
        .collect();
    assert_eq!(current, vec!["main"], "exactly one branch is checked out");
}

#[test]
fn a_branch_that_tracks_something_says_what() {
    let branches = branched();

    let main = branches.iter().find(|b| b.name == "main").expect("main");
    assert_eq!(main.upstream.as_deref(), Some("origin/main"));
}

#[test]
fn a_branch_that_tracks_nothing_has_no_upstream_rather_than_a_zero_count() {
    // Distinct from being level with an upstream: there is nowhere to push
    // at all, and "0 ahead" here would read as "already pushed".
    let branches = branched();

    let feature = branches
        .iter()
        .find(|b| b.name == "feature")
        .expect("feature");
    assert!(feature.upstream.is_none());
    assert!(feature.track.is_none());
}

#[test]
fn a_branch_ahead_of_its_upstream_counts_the_commits() {
    let branches = branched();
    let main = branches.iter().find(|b| b.name == "main").expect("main");
    let track = main.track.expect("it tracks origin/main");
    assert_eq!(track.ahead, 1, "one unpushed commit");
    assert_eq!(track.behind, 0);
}

#[test]
fn the_track_field_is_read_in_both_directions() {
    assert_eq!(
        parse_track("[ahead 3, behind 1]"),
        Some(Upstream {
            ahead: 3,
            behind: 1
        })
    );
    assert_eq!(
        parse_track("[ahead 2]"),
        Some(Upstream {
            ahead: 2,
            behind: 0
        })
    );
    assert_eq!(
        parse_track("[behind 5]"),
        Some(Upstream {
            ahead: 0,
            behind: 5
        })
    );
}

#[test]
fn an_upstream_that_has_been_deleted_is_not_mistaken_for_a_count() {
    // Git writes `[gone]` when the remote branch has been removed.
    assert_eq!(
        parse_track("[gone]"),
        Some(Upstream {
            ahead: 0,
            behind: 0
        })
    );
}

#[test]
fn no_track_information_is_absent_rather_than_zero() {
    assert_eq!(parse_track(""), None);
    assert_eq!(parse_track("   "), None);
}

#[test]
fn a_subject_containing_brackets_is_not_parsed_as_structure() {
    // The reason the fields are NUL-separated rather than scraped from
    // `git branch -vv`, whose output puts the upstream in brackets too.
    let sample =
        b"topic\x00abc1234\x00Ada\x001785000000\x00\x00\x00 \x00fix: handle [ahead 9] input\x00";
    let branches = parse(sample);

    assert_eq!(branches.len(), 1);
    assert_eq!(branches[0].subject, "fix: handle [ahead 9] input");
    assert!(branches[0].track.is_none(), "the subject is not tracking");
}

#[test]
fn a_branch_name_with_a_slash_survives() {
    let sample =
        b"feature/nested\x00abc1234\x00Ada\x001785000000\x00\x00\x00 \x00a subject\x00";
    assert_eq!(parse(sample)[0].name, "feature/nested");
}

#[test]
fn branch_empty_output_parses_to_nothing() {
    assert!(parse(b"").is_empty());
    assert!(parse(b"\n").is_empty());
}


#[test]
fn branch_a_directory_that_is_not_a_repository_lists_nothing() {
    assert!(list(&Err(GitError::NotARepository)).is_empty());
}

#[test]
fn comparing_against_another_branch_uses_the_merge_base() {
    // Not the branch tip: comparing against where the other branch has got
    // to would report its commits as though this branch had reverted them.
    let branches = branched();
    let feature = branches
        .iter()
        .find(|b| b.name == "feature")
        .expect("feature");

    let fork = "2d4cee43bda0eaa0dc47078682a5c2ff51dd449d";
    let base = base_for(feature, Ok(format!("{fork}\n").into_bytes())).expect("a common ancestor");
    assert_eq!(base.label(), "feature", "named by what was asked for");
    assert_eq!(base.rev(), fork);
}

#[test]
fn the_branch_you_are_on_is_refused_with_a_reason() {
    // Comparing a branch against itself is empty, and an empty diff would
    // read as "nothing has changed" rather than "you asked for nothing".
    let branches = branched();
    let main = branches.iter().find(|b| b.name == "main").expect("main");

    let err = base_for(main, Ok(b"dd2fd16\n".to_vec())).expect_err("refused");
    assert!(
        err.message().contains("you are on"),
        "the reason should say why: {}",
        err.message()
    );
}

#[test]
fn branches_that_never_met_are_refused_with_a_reason() {
    let branches = branched();
    let err = base_for(&branches[0], Ok(Vec::new())).expect_err("refused");
    assert!(
        err.message().contains("no common history with feature"),
        "got {}",
        err.message()
    );
}

#[test]
fn a_branch_level_with_its_upstream_says_so() {
    let sample = b"main\x00abc1234\x00Ada\x001785000000\x00origin/main\x00\x00*\x00s\x00";
    let branches = parse(sample);

    assert_eq!(branches.len(), 1);
    assert_eq!(branches[0].upstream.as_deref(), Some("origin/main"));
    assert_eq!(
        branches[0].track,
        Some(Upstream {
            ahead: 0,
            behind: 0
        })
    );
}
