//! What has been set aside.

use herdr_strays::git::base::resolve;
use herdr_strays::git::run::GitError;
use herdr_strays::git::stash::{base_for, list, parse, strip_branch, Entry};

/// Two stashes on the stack, as `git stash list` prints them.
const STASHED: &[u8] = b"\
stash@{0}\x00fc47873c7218d72e0aabb8fa3bd6d91ebd723b31\x00fc47873\x00Ada Lovelace\x001785960271\x00On main: another idea\x00\n\
stash@{1}\x00af0314c3c12211f43c4cdff38bad48c953baaa09\x00af0314c\x00Ada Lovelace\x001785960270\x00On main: work in progress\x00\n";

fn stashed() -> Vec<Entry> {
    list(&Ok(STASHED.to_vec()))
}

#[test]
fn the_stack_is_listed_newest_first() {
    let stashes = stashed();

    assert_eq!(stashes.len(), 2, "two stashes, got {stashes:?}");
    assert_eq!(stashes[0].selector, "stash@{0}");
    assert_eq!(stashes[0].message, "another idea", "the newest is first");
    assert_eq!(stashes[1].message, "work in progress");
}

#[test]
fn an_entry_carries_the_commit_rather_than_only_its_selector() {
    // A selector is positional and shifts when the stack changes; the
    // commit is the same object forever.
    let stashes = stashed();

    assert_eq!(stashes[0].commit.len(), 40, "a full commit to diff against");
    assert_eq!(stashes[0].short.len(), 7);
}

#[test]
fn gits_own_branch_prefix_is_stripped_from_the_message() {
    // Git writes `On main: what you typed`. The branch is already on
    // screen, and repeating it would push the part that differs off the
    // end of the line.
    let stashes = stashed();

    assert!(
        !stashes[0].message.starts_with("On "),
        "prefix survived: {:?}",
        stashes[0].message
    );
}

#[test]
fn the_wip_prefix_is_stripped_too() {
    // `git stash` with no message writes `WIP on <branch>: <commit>`.
    assert_eq!(strip_branch("WIP on main: abc1234 first"), "abc1234 first");
    assert_eq!(strip_branch("On main: a message"), "a message");
}

#[test]
fn a_message_with_no_prefix_is_left_alone() {
    assert_eq!(strip_branch("just a message"), "just a message");
}

#[test]
fn a_message_containing_a_colon_keeps_everything_after_the_branch() {
    // Only the first `: ` ends the branch name; the rest belongs to the
    // message and a conventional-commit style message is full of colons.
    assert_eq!(
        strip_branch("On main: fix: handle the empty case"),
        "fix: handle the empty case"
    );
}

#[test]
fn stash_empty_output_parses_to_nothing() {
    assert!(parse(b"").is_empty());
    assert!(parse(b"\n").is_empty());
}


#[test]
fn a_repository_with_nothing_stashed_lists_nothing() {
    assert!(list(&Ok(Vec::new())).is_empty(), "nothing stashed");
}

#[test]
fn stash_a_directory_that_is_not_a_repository_lists_nothing() {
    assert!(list(&Err(GitError::NotARepository)).is_empty());
}

#[test]
fn a_stash_is_diffed_against_the_commit_it_was_taken_from() {
    let stashes = stashed();
    let printed: Result<Vec<u8>, GitError> =
        Ok(b"2d4cee43bda0eaa0dc47078682a5c2ff51dd449d\n".to_vec());

    let base = base_for(&stashes[0], printed.clone()).expect("it has a parent");
    let parent = resolve(&stashes[0].parent(), printed).expect("the parent resolves");
    assert_eq!(base.rev(), parent.rev());
}

#[test]
fn the_base_is_labelled_by_the_selector_the_reader_asked_for() {
    // The title bar should say `stash@{0}`, not the hash of some commit
    // the reader never named.
    let stashes = stashed();

    let base = base_for(&stashes[0], Ok(b"2d4cee4\n".to_vec())).expect("resolves");
    assert_eq!(base.label(), "stash@{0}");
}
