//! The shape of the recent history.

use herdr_strays::git::graph::{graph, parse, Row};
use herdr_strays::git::run::GitError;

/// Captured shape of `git log --graph` across a real merge.
///
/// Reproducing the connector lines is the point: they are what a naive
/// parser turns into phantom commits.
const MERGE: &str = "\
*   fc47873c7218d72e0aabb8fa3bd6d91ebd723b31\x00fc47873\x00Ada\x001785960270\x00merge side into main
|\\
| * af0314c3c12211f43c4cdff38bad48c953baaa09\x00af0314c\x00Ada\x001785960270\x00on the side branch
* | dd2fd163c2b2dc4c7f5a4f12d8538ad5618139d9\x00dd2fd16\x00Ada\x001785960270\x00on main
|/
* 2d4cee43bda0eaa0dc47078682a5c2ff51dd449d\x002d4cee4\x00Ada\x001785960270\x00root
";

#[test]
fn a_connector_line_is_not_mistaken_for_a_commit() {
    // The whole reason this is not a list: `|\` and `|/` carry no commit,
    // and treating them as rows with empty fields would put two unselectable
    // blanks in the middle of the graph.
    let rows = parse(MERGE.as_bytes());

    let commits: Vec<&Row> = rows.iter().filter(|r| r.is_commit()).collect();
    assert_eq!(commits.len(), 4, "four commits, got {rows:#?}");

    let connectors = rows.len() - commits.len();
    assert_eq!(connectors, 2, "`|\\` and `|/`");
}

#[test]
fn each_commit_keeps_the_drawing_that_places_it() {
    let rows = parse(MERGE.as_bytes());

    let side = rows
        .iter()
        .find(|r| matches!(r, Row::Commit { subject, .. } if subject == "on the side branch"))
        .expect("the side commit");
    // The whole drawing, `*` included: it is what git computed to place
    // this commit one lane in, and it is drawn verbatim.
    assert_eq!(side.rail(), "| * ", "indented into its own lane");

    let root = rows
        .iter()
        .find(|r| matches!(r, Row::Commit { subject, .. } if subject == "root"))
        .expect("the root commit");
    assert_eq!(root.rail(), "* ", "back on the trunk");
}

#[test]
fn the_fields_of_a_commit_are_read_whole() {
    let rows = parse(MERGE.as_bytes());
    let Row::Commit {
        commit,
        short,
        author,
        author_time,
        subject,
        ..
    } = &rows[0]
    else {
        panic!("the first row is a commit, got {:?}", rows[0]);
    };

    assert_eq!(commit.len(), 40, "the full commit");
    assert_eq!(short, "fc47873");
    assert_eq!(author, "Ada");
    assert_eq!(*author_time, 1785960270);
    assert_eq!(subject, "merge side into main");
}

#[test]
fn a_merge_commit_is_a_commit_like_any_other() {
    // Git draws `*   ` with extra padding for a merge; the commit is still
    // there and still selectable.
    let rows = parse(MERGE.as_bytes());
    assert!(rows[0].is_commit(), "got {:?}", rows[0]);
}

#[test]
fn a_subject_containing_drawing_characters_survives() {
    // A subject can contain `|` or `\`, which is exactly what the rail is
    // made of. The NUL is what tells them apart.
    let sample = "* abc1234def5678901234567890123456789012\x00abc1234\x00Ada\x001785000000\x00fix: the |\\ case\n";
    let rows = parse(sample.as_bytes());

    let Row::Commit { subject, rail, .. } = &rows[0] else {
        panic!("expected a commit");
    };
    assert_eq!(subject, "fix: the |\\ case");
    assert_eq!(rail, "* ", "the rail is only what git drew");
}

#[test]
fn trailing_padding_after_a_connector_is_dropped() {
    // Git pads connector lines with spaces to the width of the drawing.
    let rows = parse("|\\  \n".as_bytes());
    assert_eq!(rows.len(), 1);
    assert_eq!(rows[0].rail(), "|\\", "padding trimmed");
}

#[test]
fn a_blank_line_yields_nothing() {
    assert!(parse(b"\n\n").is_empty());
    assert!(parse(b"").is_empty());
}

#[test]
fn a_linear_history_has_no_connectors_at_all() {
    let sample = "\
* abc1234def5678901234567890123456789012\x00abc1234\x00Ada\x001785000000\x00second
* 1111111def5678901234567890123456789012\x001111111\x00Ada\x001784000000\x00first
";
    let rows = parse(sample.as_bytes());
    assert_eq!(rows.len(), 2);
    assert!(rows.iter().all(|r| r.is_commit()));
}

#[test]
fn a_directory_that_is_not_a_repository_draws_nothing() {
    assert!(graph(&Err(GitError::NotARepository)).is_empty());
}

#[test]
fn what_git_drew_is_what_is_drawn() {
    let rows = graph(&Ok(MERGE.as_bytes().to_vec()));
    let commits = rows.iter().filter(|r| r.is_commit()).count();
    assert_eq!(commits, 4, "root, side, main, merge — got {rows:#?}");
    assert!(
        rows.iter().any(|r| !r.is_commit()),
        "a merge draws connectors: {rows:#?}"
    );
}
