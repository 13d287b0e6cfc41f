//! The commits that touched one file.

use herdr_strays::git::base::resolve;
use herdr_strays::git::history::{arguments, base_for, has_parent, history, parse, Entry};
use herdr_strays::git::run::GitError;

/// Three commits of a file, the middle one a rename, as
/// `git log --follow` lists them.
const HISTORY: &[u8] = b"\
fc47873c7218d72e0aabb8fa3bd6d91ebd723b31\x00fc47873\x00Ada Lovelace\x001785960272\x00add a line\x00\n\
af0314c3c12211f43c4cdff38bad48c953baaa09\x00af0314c\x00Ada Lovelace\x001785960271\x00rename it\x00\n\
2d4cee43bda0eaa0dc47078682a5c2ff51dd449d\x002d4cee4\x00Ada Lovelace\x001785960270\x00the first commit\x00\n";

fn with_history() -> Vec<Entry> {
    history(&Ok(HISTORY.to_vec()))
}

/// Git refusing, as it does for what it does not know.
fn refused(stderr: &str) -> GitError {
    GitError::Failed {
        status: Some(128),
        stderr: stderr.to_string(),
    }
}

#[test]
fn the_commits_that_touched_the_file_are_listed_newest_first() {
    let log = with_history();

    assert_eq!(log.len(), 3, "three commits, got {log:?}");
    assert_eq!(log[0].subject, "add a line", "newest first");
    assert_eq!(log[2].subject, "the first commit");
}

#[test]
fn history_follows_the_file_through_a_rename() {
    // The point of `--follow`: without it the list would start at the
    // rename and hide the commit that created the file.
    assert!(arguments("new-name.txt", 200).contains(&"--follow".to_string()));

    let log = with_history();
    assert!(
        log.iter().any(|e| e.subject == "the first commit"),
        "the history before the rename is missing: {log:?}"
    );
}

#[test]
fn each_entry_carries_what_it_needs_to_be_diffed() {
    let log = with_history();
    let newest = &log[0];

    assert_eq!(newest.commit.len(), 40, "a full commit to diff against");
    assert_eq!(newest.short.len(), 7, "an abbreviated one to show");
    assert_eq!(newest.author, "Ada Lovelace");
    assert!(newest.author_time > 0, "a real timestamp");
}

#[test]
fn the_trailing_separator_does_not_produce_an_empty_entry() {
    let log = with_history();
    assert!(
        log.iter().all(|e| !e.commit.is_empty()),
        "an empty commit reached the list: {log:?}"
    );
}

#[test]
fn a_file_with_no_history_yields_an_empty_list_rather_than_an_error() {
    assert!(history(&Ok(Vec::new())).is_empty());
}

#[test]
fn a_directory_that_is_not_a_repository_yields_nothing() {
    let log = history(&Err(GitError::NotARepository));
    assert!(log.is_empty(), "silent, like the other read-only queries");
}

#[test]
fn an_entry_is_diffed_against_its_parent() {
    // Selecting a commit should show what *that commit* did, which means
    // comparing against what came before it.
    let log = with_history();
    let newest = &log[0];
    let printed: Result<Vec<u8>, GitError> =
        Ok(b"af0314c3c12211f43c4cdff38bad48c953baaa09\n".to_vec());

    let base = base_for(newest, &printed, printed.clone()).expect("it has a parent");
    let parent = resolve(&newest.parent(), printed).expect("the parent resolves");
    assert_eq!(base.rev(), parent.rev());
    assert_eq!(base.rev(), log[1].commit);
}

#[test]
fn the_first_commit_is_refused_with_a_reason_rather_than_showing_nothing() {
    // A root commit has nothing before it. Diffing against `<root>^` fails
    // in git, and an empty pane would look like "this commit changed
    // nothing" rather than "the file was created here".
    let log = with_history();
    let oldest = log.last().expect("three commits");

    let err = base_for(oldest, &Err(refused("")), Err(refused(""))).expect_err("no parent");
    assert!(
        err.message().contains("first commit"),
        "the reason should say why: {}",
        err.message()
    );
}

#[test]
fn a_root_commit_is_recognised_as_having_no_parent() {
    assert!(
        has_parent(&Ok(b"af0314c3c12211f43c4cdff38bad48c953baaa09\n".to_vec())),
        "the newest has one"
    );
    assert!(
        !has_parent(&Err(refused(""))),
        "the first commit does not"
    );
    assert!(!has_parent(&Ok(Vec::new())));
}

#[test]
fn a_subject_containing_a_newline_stays_one_entry() {
    // The reason the fields are NUL-separated. A subject cannot contain a
    // NUL, but it can contain anything a terminal will show.
    let sample = b"abc123\x00abc123\x00Ada\x001785000000\x00a subject\x00";
    let log = parse(sample);

    assert_eq!(log.len(), 1);
    assert_eq!(log[0].subject, "a subject");
}

#[test]
fn a_subject_containing_a_dash_is_not_mistaken_for_structure() {
    let sample = b"abc123\x00abc123\x00Ada\x001785000000\x00fix: don't --follow blindly\x00";
    let log = parse(sample);
    assert_eq!(log[0].subject, "fix: don't --follow blindly");
}

#[test]
fn history_empty_output_parses_to_nothing() {
    assert!(parse(b"").is_empty());
    assert!(parse(b"\n").is_empty());
}
