//! Who last touched each line.

use herdr_strays::git::base::Base;
use herdr_strays::git::blame::{arguments, blame, parse};
use herdr_strays::git::run::GitError;

/// Captured shape of real `git blame --porcelain` output, with two lines
/// from one commit and one from another.
///
/// Note the second line carries no `author`: that is the format, not an
/// omission, and reproducing it is the point of this fixture.
const SAMPLE: &str = "\
35a9a25e297ab54ffc6821c2da21e5a7f74a862e 1 1 2
author Ada Lovelace
author-mail <ada@example.com>
author-time 1785437209
author-tz +0200
committer Ada Lovelace
committer-time 1785437209
summary the first commit
boundary
filename src/model.rs
\tfirst line
35a9a25e297ab54ffc6821c2da21e5a7f74a862e 2 2
\tsecond line
8f2e91acabc1234567890abcdef1234567890abc 3 3 1
author Alan Turing
author-mail <alan@example.com>
author-time 1785500000
author-tz +0200
committer Alan Turing
committer-time 1785500000
summary a later change
filename src/model.rs
\tthird line
";

#[test]
fn each_line_is_attributed_to_the_commit_that_touched_it() {
    let blame = parse(SAMPLE.as_bytes());
    assert_eq!(blame.len(), 3);

    assert_eq!(blame[0].as_ref().unwrap().author, "Ada Lovelace");
    assert_eq!(blame[2].as_ref().unwrap().author, "Alan Turing");
}

#[test]
fn a_later_line_of_the_same_commit_inherits_its_details() {
    // The whole reason commits are accumulated in a map: git emits the
    // author once per commit, and line two carries only the sha.
    let blame = parse(SAMPLE.as_bytes());
    let second = blame[1].as_ref().expect("line two is attributed");

    assert_eq!(second.author, "Ada Lovelace", "not blank");
    assert_eq!(second.summary, "the first commit");
    assert_eq!(second.commit, blame[0].as_ref().unwrap().commit);
}

#[test]
fn the_commit_is_shortened_to_what_fits_a_column() {
    let blame = parse(SAMPLE.as_bytes());
    assert_eq!(blame[0].as_ref().unwrap().commit, "35a9a25");
}

#[test]
fn the_author_time_is_kept_as_an_instant_not_a_rendered_age() {
    // The age is relative to now and the viewer stays open, so rendering
    // it at parse time would freeze it.
    let blame = parse(SAMPLE.as_bytes());
    assert_eq!(blame[0].as_ref().unwrap().author_time, 1785437209);
}

#[test]
fn the_summary_survives_spaces() {
    // `split_once` rather than `split`: a subject has spaces in it.
    let blame = parse(SAMPLE.as_bytes());
    assert_eq!(blame[2].as_ref().unwrap().summary, "a later change");
}

#[test]
fn a_not_yet_committed_line_is_marked_as_such() {
    // Git uses an all-zero sha for local modifications. That means "you,
    // just now" rather than a commit anyone could look up.
    let sample = "\
0000000000000000000000000000000000000000 1 1 1
author Not Committed Yet
author-time 1785500000
summary Version of the file in the working tree
filename a.rs
\tuncommitted line
";
    let blame = parse(sample.as_bytes());
    let line = blame[0].as_ref().expect("still attributed");
    assert!(line.uncommitted, "the all-zero sha means uncommitted");
}

#[test]
fn empty_output_yields_no_attributions_rather_than_an_error() {
    assert!(parse(b"").is_empty());
}

#[test]
fn a_line_whose_text_looks_like_a_header_is_not_parsed_as_one() {
    // The file's own content is tab-prefixed, so a line that happens to
    // read like a sha must not open a new record.
    let sample = "\
35a9a25e297ab54ffc6821c2da21e5a7f74a862e 1 1 1
author Ada Lovelace
author-time 1785437209
summary a commit
filename a.txt
\t8f2e91acabc1234567890abcdef1234567890abc 99 99 1
";
    let blame = parse(sample.as_bytes());
    assert_eq!(blame.len(), 1, "one line, not two");
    assert_eq!(blame[0].as_ref().unwrap().author, "Ada Lovelace");
}

#[test]
fn the_index_follows_the_final_line_number_not_the_order_seen() {
    // Blame reports the line's position in the file being blamed, and the
    // records need not arrive in that order.
    let sample = "\
35a9a25e297ab54ffc6821c2da21e5a7f74a862e 5 3 1
author Ada Lovelace
author-time 1
summary s
filename a.txt
\tthe third line
";
    let blame = parse(sample.as_bytes());
    assert_eq!(blame.len(), 3, "grown to fit line three");
    assert!(blame[0].is_none(), "nothing known about line one");
    assert!(blame[2].is_some(), "line three is attributed");
}

#[test]
fn a_truncated_record_does_not_panic() {
    // A stream cut off mid-record — a killed git, a full pipe — should
    // yield less rather than crash the viewer.
    let sample = "35a9a25e297ab54ffc6821c2da21e5a7f74a862e 1 1 1\nauthor Ada";
    let _ = parse(sample.as_bytes());
}

#[test]
fn blaming_a_file_with_no_history_is_empty_rather_than_an_error() {
    let blame = blame(&Err(GitError::NotARepository));
    assert!(blame.is_empty(), "silent, per the module documentation");
}

#[test]
fn a_file_blamed_against_a_commit_names_it() {
    assert_eq!(
        arguments("a.txt", &Base::Head).last().map(String::as_str),
        Some("a.txt")
    );
}

#[test]
fn a_real_repository_attributes_its_committed_lines() {
    let printed = "\
35a9a25e297ab54ffc6821c2da21e5a7f74a862e 1 1 2
author Ada Lovelace
author-mail <ada@example.com>
author-time 1785437209
author-tz +0200
committer Ada Lovelace
summary the only commit
boundary
filename a.txt
\tone
35a9a25e297ab54ffc6821c2da21e5a7f74a862e 2 2
\ttwo
";
    let blame = blame(&Ok(printed.as_bytes().to_vec()));
    assert_eq!(blame.len(), 2, "two lines");

    let first = blame[0].as_ref().expect("attributed");
    assert_eq!(first.author, "Ada Lovelace");
    assert_eq!(first.summary, "the only commit");
    assert!(!first.uncommitted);
    assert_eq!(first.commit.len(), 7);
}

#[test]
fn a_locally_modified_line_is_reported_as_uncommitted() {
    // The case that matters in a diff pane: the line under discussion is
    // usually one that has not been committed.
    let printed = "\
35a9a25e297ab54ffc6821c2da21e5a7f74a862e 1 1 1
author Ada
author-time 1785437209
summary first
filename a.txt
\tone
0000000000000000000000000000000000000000 2 2 1
author Not Committed Yet
author-time 1785500000
summary Version of a.txt from a.txt
filename a.txt
\tadded since
";
    let blame = blame(&Ok(printed.as_bytes().to_vec()));
    assert!(!blame[0].as_ref().unwrap().uncommitted, "line one is old");
    assert!(
        blame[1].as_ref().expect("still reported").uncommitted,
        "line two has not been committed"
    );
}
