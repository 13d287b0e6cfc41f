//! Notes written down as text and read back.

use std::collections::HashMap;

use herdr_strays::annotate::store::{file_in, format_record, parse_record, state_dir};
use herdr_strays::annotate::{load, save, Anchor, Annotation, Annotations, Kind, StoreError};

fn annotation(file: &str, line: u32, text: &str, kind: Kind) -> Annotation {
    Annotation {
        anchor: Anchor {
            file: file.to_string(),
            line,
            hash: 0xdead_beef,
        },
        kind,
        text: text.to_string(),
    }
}

#[test]
fn a_record_survives_the_round_trip() {
    let original = annotation("src/main.rs", 42, "why is this here?", Kind::Question);
    let restored = parse_record(format_record(&original).trim_end()).expect("parses back");

    assert_eq!(restored, original);
}

#[test]
fn a_tab_in_the_text_does_not_break_the_record_apart() {
    let original = annotation("a.rs", 1, "before\tafter", Kind::Note);
    let restored = parse_record(format_record(&original).trim_end()).expect("parses back");

    assert_eq!(restored.text, "before\tafter");
}

#[test]
fn a_newline_in_the_text_stays_inside_one_record() {
    // Two records where one was meant would silently invent an annotation.
    let original = annotation("a.rs", 1, "first\nsecond", Kind::Issue);
    let formatted = format_record(&original);

    assert_eq!(formatted.matches('\n').count(), 1, "only the terminator");
    assert_eq!(
        parse_record(formatted.trim_end()).unwrap().text,
        "first\nsecond"
    );
}

#[test]
fn a_path_containing_a_tab_survives() {
    let original = annotation("odd\tname.rs", 1, "hi", Kind::Note);
    let restored = parse_record(format_record(&original).trim_end()).unwrap();

    assert_eq!(restored.anchor.file, "odd\tname.rs".to_string());
}

#[test]
fn a_backslash_in_the_text_is_not_eaten() {
    let original = annotation("a.rs", 1, r"a \n that is literal", Kind::Note);
    let restored = parse_record(format_record(&original).trim_end()).unwrap();

    assert_eq!(restored.text, r"a \n that is literal");
}

#[test]
fn a_malformed_record_is_skipped_rather_than_failing_the_load() {
    assert_eq!(parse_record("garbage"), None);
    assert_eq!(parse_record(""), None);
    assert_eq!(parse_record("1\tnot-a-hash\tissue\ta.rs\ttext"), None);
    assert_eq!(parse_record("1\t2\tissue\ta.rs\t"), None, "empty text");
}


/// Save the notes of a repository among files in memory, by their names.
fn save_into(files: &mut HashMap<String, String>, repo: &str, notes: &Annotations) {
    let file = file_in("/state", repo);
    match save(notes) {
        Some(text) => {
            files.insert(file, text);
        }
        None => {
            files.remove(&file);
        }
    }
}

/// Load the notes of a repository from files in memory.
fn load_from(files: &HashMap<String, String>, repo: &str) -> Annotations {
    load(files.get(&file_in("/state", repo)).map(String::as_str))
}

#[test]
fn saving_and_loading_returns_what_was_written() {
    let mut files = HashMap::new();
    let repo = "/tmp/some-repo";
    let notes = Annotations::new()
        .with(annotation("src/a.rs", 3, "look here", Kind::Issue))
        .with(annotation("src/b.rs", 9, "and here", Kind::Suggestion));

    save_into(&mut files, repo, &notes);
    let loaded = load_from(&files, repo);

    assert_eq!(loaded.len(), 2);
    assert_eq!(loaded.iter()[0].text, "look here");
    assert_eq!(loaded, notes);
}

#[test]
fn two_repositories_do_not_share_a_file() {
    let mut files = HashMap::new();
    let one = "/tmp/repo-one";
    let two = "/tmp/repo-two";

    save_into(
        &mut files,
        one,
        &Annotations::new().with(annotation("a.rs", 1, "one", Kind::Note)),
    );
    save_into(
        &mut files,
        two,
        &Annotations::new().with(annotation("a.rs", 1, "two", Kind::Note)),
    );

    assert_eq!(load_from(&files, one).iter()[0].text, "one");
    assert_eq!(load_from(&files, two).iter()[0].text, "two");
    assert!(file_in("/state", one).starts_with("/state/repo-one-"));
    assert!(file_in("/state", two).starts_with("/state/repo-two-"));
}

#[test]
fn two_checkouts_of_one_name_do_not_share_a_file() {
    assert_ne!(
        file_in("/state", "/home/ada/api"),
        file_in("/state", "/srv/api")
    );
}

#[test]
fn clearing_the_annotations_removes_the_file() {
    let mut files = HashMap::new();
    let repo = "/tmp/repo-cleared";

    save_into(
        &mut files,
        repo,
        &Annotations::new().with(annotation("a.rs", 1, "x", Kind::Note)),
    );
    assert_eq!(files.len(), 1);
    save_into(&mut files, repo, &Annotations::new());

    assert!(files.is_empty());
    assert!(load_from(&files, repo).is_empty());
    // Saving an empty set twice must not fail on the already-absent file.
    save_into(&mut files, repo, &Annotations::new());
    assert!(files.is_empty());
}

#[test]
fn loading_a_repository_with_no_annotations_is_empty_not_an_error() {
    assert!(load_from(&HashMap::new(), "/tmp/never-annotated").is_empty());
}

#[test]
fn a_bad_line_costs_its_own_note_and_no_other() {
    let notes = Annotations::new().with(annotation("a.rs", 1, "kept", Kind::Note));
    let mut file = String::from("garbage\n");
    file.push_str(&save(&notes).unwrap());
    file.push_str("more garbage\n");

    assert_eq!(load(Some(&file)), notes);
}

#[test]
fn the_state_directory_follows_the_environment() {
    assert_eq!(
        state_dir(Some("/state"), Some("/home/ada")).as_deref(),
        Some("/state/herdr-strays")
    );
    assert_eq!(
        state_dir(Some(""), Some("/home/ada")).as_deref(),
        Some("/home/ada/.local/state/herdr-strays")
    );
    assert_eq!(state_dir(None, None), None);
}

#[test]
fn the_store_errors_say_what_to_do() {
    assert_eq!(
        StoreError::NoStateDir.message(),
        "no state directory — set XDG_STATE_HOME or HOME"
    );
    assert_eq!(
        StoreError::Io("disk full".to_string()).message(),
        "could not write annotations: disk full"
    );
}
