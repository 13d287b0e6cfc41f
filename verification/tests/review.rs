//! The text that collected notes are handed over as.

use herdr_strays::annotate::{
    compose, compose_with_comments, Anchor, Annotation, Annotations, Kind,
};
use herdr_strays::forge::PrComment;

fn noted(file: &str, line: u32, kind: Kind, text: &str) -> Annotation {
    Annotation {
        anchor: Anchor {
            file: file.to_string(),
            line,
            hash: 0,
        },
        kind,
        text: text.to_string(),
    }
}

#[test]
fn nothing_to_say_composes_nothing() {
    // An empty review would interrupt the agent for no reason.
    assert_eq!(compose(&Annotations::new()), None);
}

#[test]
fn one_note_names_its_file_line_and_kind() {
    let notes = Annotations::new().with(noted(
        "src/app/mod.rs",
        142,
        Kind::Issue,
        "this refresh throws the scroll away",
    ));

    let text = compose(&notes).expect("one note is a review");
    assert!(text.contains("Review — 1 note:"), "got {text}");
    assert!(text.contains("src/app/mod.rs:142 (issue)"), "got {text}");
    assert!(
        text.contains("  this refresh throws the scroll away"),
        "got {text}"
    );
}

#[test]
fn notes_are_grouped_by_file_and_ordered_by_line() {
    // Written out of order; the agent should still read them in order.
    let notes = Annotations::new()
        .with(noted("b.rs", 5, Kind::Note, "second file"))
        .with(noted("a.rs", 90, Kind::Note, "later line"))
        .with(noted("a.rs", 10, Kind::Note, "earlier line"));

    let text = compose(&notes).unwrap();
    let at = |needle: &str| {
        text.find(needle)
            .unwrap_or_else(|| panic!("{needle} missing"))
    };

    assert!(at("a.rs:10") < at("a.rs:90"), "lines ascend within a file");
    assert!(at("a.rs:90") < at("b.rs:5"), "files are grouped");
}

#[test]
fn the_count_agrees_with_the_number_of_notes() {
    let notes = Annotations::new()
        .with(noted("a.rs", 1, Kind::Note, "one"))
        .with(noted("a.rs", 2, Kind::Note, "two"));

    assert!(compose(&notes).unwrap().contains("2 notes:"));
}

#[test]
fn every_kind_reaches_the_agent_by_name() {
    // The kind is what tells the agent whether to fix, explain or ignore.
    for kind in [Kind::Issue, Kind::Suggestion, Kind::Question, Kind::Note] {
        let notes = Annotations::new().with(noted("a.rs", 1, kind, "text"));
        let text = compose(&notes).unwrap();
        assert!(
            text.contains(&format!("({})", kind.label())),
            "{} missing from {text}",
            kind.label()
        );
    }
}

#[test]
fn a_multi_line_note_stays_indented_under_its_header() {
    // Otherwise its second line would sit at the left margin and read as
    // another file reference.
    let notes = Annotations::new().with(noted("a.rs", 1, Kind::Note, "first\nsecond"));

    let text = compose(&notes).unwrap();
    assert!(text.contains("  first\n  second"), "got {text}");
}

fn comment(file: &str, line: u32, author: &str, body: &str) -> PrComment {
    PrComment {
        file: file.to_string(),
        line,
        author: author.to_string(),
        body: body.to_string(),
    }
}

#[test]
fn a_reviewers_words_travel_with_the_note_on_the_same_line() {
    // The agent is about to change the exact line somebody objected to.
    let notes = Annotations::new().with(noted("a.rs", 7, Kind::Issue, "do what they asked"));
    let comments = vec![comment("a.rs", 7, "ada", "this drops the error")];

    let text = compose_with_comments(&notes, &comments).expect("a review");
    assert!(text.contains("do what they asked"), "got {text}");
    assert!(text.contains("this drops the error"), "got {text}");
    assert!(
        text.contains("@ada"),
        "the agent must be able to tell whose words these are: {text}"
    );
}

/// The reader chose their lines by noting them; the rest of the pull
/// request would be a transcript rather than a review.
#[test]
fn comments_on_lines_nobody_noted_are_left_out() {
    let notes = Annotations::new().with(noted("a.rs", 7, Kind::Issue, "mine"));
    let comments = vec![
        comment("a.rs", 99, "ada", "about another line"),
        comment("b.rs", 7, "ada", "about another file"),
    ];

    let text = compose_with_comments(&notes, &comments).unwrap();
    assert!(!text.contains("about another line"), "got {text}");
    assert!(!text.contains("about another file"), "got {text}");
}

#[test]
fn with_nothing_quoted_the_text_is_the_plain_review() {
    let notes = Annotations::new().with(noted("a.rs", 7, Kind::Issue, "mine"));
    assert_eq!(
        compose_with_comments(&notes, &Vec::new()),
        compose(&notes),
        "an empty forge must change nothing"
    );
}

/// Sending an empty review would interrupt an agent for nothing, comments
/// or no comments.
#[test]
fn comments_alone_are_not_a_review() {
    let comments = vec![comment("a.rs", 7, "ada", "said something")];
    assert_eq!(compose_with_comments(&Annotations::new(), &comments), None);
}

#[test]
fn the_same_annotations_compose_the_same_text_twice() {
    let notes = Annotations::new()
        .with(noted("z.rs", 1, Kind::Note, "z"))
        .with(noted("a.rs", 1, Kind::Note, "a"));

    assert_eq!(compose(&notes), compose(&notes), "the order is stable");
}
