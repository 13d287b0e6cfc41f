//! The prompt line: writing a note about the selected file for an agent.

use herdr_strays::app::{App, Input};
use herdr_strays::config::Config;
use herdr_strays::discover::Scope;

/// The viewer with nothing open, as it starts.
fn blank() -> App {
    App::load(
        "herdr",
        Vec::new(),
        None,
        Scope::AllWorkspaces,
        &Config::default(),
    )
}

/// An app with no projects: enough to drive the prompt's own state, which
/// does not depend on what is selected until the text is sent.
fn empty_app(prompt: Option<String>) -> App {
    App {
        input: Input {
            prompt,
            ..blank().input
        },
        ..blank()
    }
}

#[test]
fn prompt_an_open_prompt_captures_typing() {
    let app = empty_app(Some(String::new()));

    let typed = app.prompt_push('h').prompt_push('i').prompt_push('!');
    assert_eq!(typed.input.prompt.as_deref(), Some("hi!"));

    let corrected = typed.prompt_backspace();
    assert_eq!(corrected.input.prompt.as_deref(), Some("hi"));

    assert_eq!(corrected.cancel_prompt().input.prompt, None);
}

#[test]
fn prompt_typing_is_ignored_when_no_prompt_is_open() {
    let app = empty_app(None);
    assert_eq!(app.prompt_push('x').input.prompt, None);
}

#[test]
fn backspacing_an_empty_prompt_leaves_it_open() {
    // Backspace past the start must not close the line: the user is still
    // composing, and a vanished prompt would swallow the next keystrokes.
    let app = empty_app(Some(String::new())).prompt_backspace();
    assert_eq!(app.input.prompt.as_deref(), Some(""));
}

#[test]
fn sending_with_nothing_selected_closes_the_prompt() {
    // No selection means nowhere to send: closing beats leaving the line
    // open with text that can never go anywhere.
    let app = empty_app(Some("about what?".into())).send_prompt(&Vec::new(), Ok(()));
    assert_eq!(app.input.prompt, None);
}
