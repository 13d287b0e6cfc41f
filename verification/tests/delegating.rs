//! Asking the agent to commit, stage, unstage or stash.

use herdr_strays::app::{App, Data, Delegating, Input};
use herdr_strays::config::Config;
use herdr_strays::delegate::{Action, Scope as Files};
use herdr_strays::discover::{Project, Scope};
use herdr_strays::model::{Stray, StrayStatus};
use herdr_strays::tree::ProjectStrays;

/// The viewer with nothing open, as it starts.
fn blank() -> App {
    App::load(
        "herdr",
        Vec::new(),
        None,
        Scope::AllWorkspaces,
        &Config::default(),
    )
}

/// An app holding one project with one changed file.
///
/// No agent is running against `/nonexistent`, so the hand-off refuses —
/// which is what most of these check.
fn app() -> App {
    let app = App {
        data: Data {
            projects: vec![ProjectStrays {
                project: Project {
                    root: "/nonexistent/delegate-test".to_string(),
                    name: "repo".into(),
                },
                strays: vec![Stray::new(StrayStatus::Modified, "src/a.rs")],
                branch: Some("main".into()),
                upstream: None,
                touched: None,
                agent: None,
                error: None,
            }],
            ..blank().data
        },
        ..blank()
    };
    app.rebuilt()
}

/// An app with the commit line already open, bypassing the agent check.
fn composing(action: Action) -> App {
    App {
        input: Input {
            delegating: Some(Delegating {
                action,
                scope: Files::File("src/a.rs".into()),
            }),
            ..app().input
        },
        ..app()
    }
}

#[test]
fn typing_builds_the_message() {
    let app = composing(Action::Commit {
        message: String::new(),
    })
    .delegate_push('f')
    .delegate_push('i')
    .delegate_push('x');

    assert_eq!(app.input.delegating.as_ref().unwrap().text(), "fix");
}

#[test]
fn backspacing_removes_what_was_typed() {
    let app = composing(Action::Commit {
        message: "fixx".into(),
    })
    .delegate_backspace();

    assert_eq!(app.input.delegating.as_ref().unwrap().text(), "fix");
}

#[test]
fn backspacing_an_empty_message_leaves_the_line_open() {
    // Closing on backspace would lose the line to one keystroke too many.
    let app = composing(Action::Commit {
        message: String::new(),
    })
    .delegate_backspace();

    assert!(app.input.delegating.is_some());
}

#[test]
fn a_commit_with_no_message_is_refused_and_the_line_stays_open() {
    // The reader pressed Enter meaning to commit. Closing the line would
    // throw away the intent along with the keystroke.
    let app = composing(Action::Commit {
        message: String::new(),
    })
    .send_delegating(&Vec::new(), Ok(()));

    assert!(app.input.delegating.is_some(), "still composing");
    let notice = app.view.notice.as_ref().expect("a reason");
    assert!(notice.is_error);
    assert!(notice.text.contains("message"), "got {:?}", notice.text);
}

#[test]
fn cancelling_discards_the_action_and_the_typing() {
    let app = composing(Action::Commit {
        message: "half typed".into(),
    })
    .cancel_delegating();

    assert!(app.input.delegating.is_none());
}

#[test]
fn typing_is_ignored_when_no_line_is_open() {
    let app = app().delegate_push('x');
    assert!(app.input.delegating.is_none(), "the key went to navigation");
}

#[test]
fn the_scope_is_fixed_when_the_line_opens() {
    // A background refresh or a stray keypress must not change what is
    // about to be committed out from under the reader.
    let app = composing(Action::Commit {
        message: String::new(),
    });
    let before = app.input.delegating.as_ref().unwrap().scope.clone();

    let app = app.delegate_push('a').delegate_push('b');
    assert_eq!(app.input.delegating.as_ref().unwrap().scope, before);
}

#[test]
fn the_line_says_which_key_was_pressed() {
    assert_eq!(
        composing(Action::Commit {
            message: String::new()
        })
        .input
        .delegating
        .unwrap()
        .label(),
        "commit message"
    );
    assert_eq!(
        composing(Action::Stash {
            message: String::new()
        })
        .input
        .delegating
        .unwrap()
        .label(),
        "stash message"
    );
}

#[test]
fn a_stash_with_no_message_is_ready_to_send() {
    // Git writes its own message, so an empty one is ordinary rather than
    // a refusal like an empty commit message.
    let app = composing(Action::Stash {
        message: String::new(),
    })
    .send_delegating(&Vec::new(), Ok(()));

    assert!(app.input.delegating.is_none(), "sent rather than refused");
}

#[test]
fn delegating_without_an_agent_says_so_rather_than_opening_a_line() {
    // There is no agent against `/nonexistent`, so typing a message would
    // be wasted keystrokes.
    let app = app().begin_commit(&Vec::new());

    assert!(app.input.delegating.is_none(), "no line opened");
    assert!(app.view.notice.as_ref().is_some_and(|n| n.is_error));
}

#[test]
fn staging_needs_nothing_typed_and_opens_no_line() {
    let app = app().delegate_stage(&Vec::new(), Ok(()));
    assert!(app.input.delegating.is_none(), "no message to type");
    // Refused here for want of an agent, which is what proves it tried to
    // send rather than opening a line.
    assert!(app.view.notice.is_some());
}
