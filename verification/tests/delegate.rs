//! The instructions an agent is asked to carry out.

use herdr_strays::agent::compose;
use herdr_strays::delegate::{instruction, is_ready, Action, Scope};

#[test]
fn a_commit_names_the_file_and_carries_the_message() {
    let text = instruction(
        &Action::Commit {
            message: "fix the parser".into(),
        },
        &Scope::File("src/a.rs".into()),
    );

    assert!(text.contains("src/a.rs"), "got {text:?}");
    assert!(text.contains("fix the parser"), "got {text:?}");
    assert!(text.starts_with("Please commit"), "got {text:?}");
}

#[test]
fn a_whole_repository_commit_says_so_rather_than_naming_nothing() {
    // "commit " with an empty path would read as a malformed instruction.
    let text = instruction(
        &Action::Commit {
            message: "the lot".into(),
        },
        &Scope::Everything,
    );
    assert!(text.contains("everything that has changed"), "got {text:?}");
}

#[test]
fn staging_and_unstaging_are_distinct_instructions() {
    let stage = instruction(&Action::Stage, &Scope::File("a.rs".into()));
    let unstage = instruction(&Action::Unstage, &Scope::File("a.rs".into()));

    assert!(stage.contains("stage a.rs"), "got {stage:?}");
    assert!(unstage.contains("unstage a.rs"), "got {unstage:?}");
    assert_ne!(stage, unstage, "the two must not read alike");
}

#[test]
fn a_stash_without_a_message_does_not_trail_off() {
    // Git writes its own message when none is given, so asking for one
    // that is empty would produce "stash a.rs with the message: ".
    let text = instruction(
        &Action::Stash {
            message: String::new(),
        },
        &Scope::File("a.rs".into()),
    );
    assert!(!text.contains("message"), "got {text:?}");
    assert!(text.contains("stash a.rs"), "got {text:?}");
}

#[test]
fn a_stash_with_a_message_carries_it() {
    let text = instruction(
        &Action::Stash {
            message: "half-done".into(),
        },
        &Scope::Everything,
    );
    assert!(text.contains("half-done"), "got {text:?}");
}

#[test]
fn a_commit_with_no_message_is_not_ready() {
    // The agent would invent one or stop and ask; neither is what the key
    // was pressed for.
    assert!(!is_ready(&Action::Commit {
        message: String::new()
    }));
    assert!(!is_ready(&Action::Commit {
        message: "   ".into()
    }));
    assert!(is_ready(&Action::Commit {
        message: "real".into()
    }));
}

#[test]
fn the_other_actions_need_nothing_typed() {
    assert!(is_ready(&Action::Stage));
    assert!(is_ready(&Action::Unstage));
    assert!(is_ready(&Action::Stash {
        message: String::new()
    }));
}

#[test]
fn the_scope_follows_what_the_cursor_is_on() {
    assert_eq!(
        Scope::of(Some("src/a.rs")),
        Scope::File("src/a.rs".into())
    );
    assert_eq!(Scope::of(None), Scope::Everything);
}

#[test]
fn every_action_has_a_summary_for_the_status_line() {
    assert_eq!(
        Action::Commit {
            message: "x".into()
        }
        .summary(),
        "commit"
    );
    assert_eq!(Action::Stage.summary(), "stage");
    assert_eq!(Action::Unstage.summary(), "unstage");
    assert_eq!(
        Action::Stash {
            message: String::new()
        }
        .summary(),
        "stash"
    );
}

#[test]
fn a_message_containing_a_newline_cannot_submit_on_the_users_behalf() {
    // The instruction is composed here and sanitised by `agent::compose`
    // before it reaches the pane. This pins the two together: a newline in
    // a message must not survive into what is typed.
    let text = instruction(
        &Action::Commit {
            message: "first line\nsecond line".into(),
        },
        &Scope::File("a.rs".into()),
    );
    let typed = compose("a.rs", &text);

    assert!(
        !typed.contains('\n'),
        "a newline would press Enter in the agent's input: {typed:?}"
    );
}

#[test]
fn an_escape_sequence_in_a_message_cannot_repaint_the_agents_terminal() {
    let text = instruction(
        &Action::Commit {
            message: "\x1b[2Jwiped".into(),
        },
        &Scope::File("a.rs".into()),
    );
    let typed = compose("a.rs", &text);

    assert!(!typed.contains('\x1b'), "got {typed:?}");
}
