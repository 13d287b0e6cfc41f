//! The agents herdr runs, and the text they are handed.

use herdr_strays::agent::{compose, parse_agents, pick, Agent};

/// `herdr agent list` output as herdr 0.7.3 shapes it.
const AGENT_LIST: &str = r#"{"id":"cli:agent:list","result":{"agents":[
{"agent":"helper","agent_status":"idle","cwd":"/repo/api","focused":false,"pane_id":"w3:p1","tab_id":"w3:t1","workspace_id":"w3"},
{"agent":"helper","agent_status":"idle","cwd":"/repo/web","focused":false,"pane_id":"w4:p1","tab_id":"w4:t1","workspace_id":"w4"}
],"type":"agent_list"}}"#;

#[test]
fn reads_every_running_agent() {
    let agents = parse_agents(AGENT_LIST);
    assert_eq!(agents.len(), 2);
    assert_eq!(agents[0].pane_id, "w3:p1");
    assert_eq!(agents[0].cwd, "/repo/api");
}

#[test]
fn picks_the_agent_in_the_same_repository() {
    let agents = parse_agents(AGENT_LIST);
    let picked = pick(&agents, "/repo/web").expect("should match");
    assert_eq!(picked.pane_id, "w4:p1");
}

#[test]
fn matches_an_agent_sitting_in_a_subdirectory() {
    let agents = vec![Agent {
        pane_id: "w1:p1".into(),
        workspace_id: "w1".into(),
        cwd: "/repo/app/src".into(),
    }];
    assert!(pick(&agents, "/repo/app").is_some());
}

#[test]
fn does_not_match_a_merely_similar_path() {
    // `/repo/app-other` must not be treated as inside `/repo/app`.
    let agents = vec![Agent {
        pane_id: "w1:p1".into(),
        workspace_id: "w1".into(),
        cwd: "/repo/app-other".into(),
    }];
    assert!(pick(&agents, "/repo/app").is_none());
}

#[test]
fn no_agent_in_the_repository_is_reported_rather_than_guessed() {
    let agents = parse_agents(AGENT_LIST);
    assert!(pick(&agents, "/repo/unrelated").is_none());
}

#[test]
fn composes_path_and_prompt() {
    let text = compose("src/main.rs", "why is this slow?");
    assert_eq!(text, "src/main.rs: why is this slow?");
}

#[test]
fn an_empty_prompt_sends_just_the_path() {
    assert_eq!(compose("src/main.rs", "   "), "src/main.rs");
}

#[test]
fn prompt_text_is_passed_through_verbatim() {
    // The prompt is the user's prose: shell metacharacters in it are just
    // characters, because it never reaches a shell.
    let text = compose("a.rs", "does `rm -rf ~` appear here?");
    assert_eq!(text, "a.rs: does `rm -rf ~` appear here?");
}

#[test]
fn a_newline_in_the_path_cannot_submit_on_the_users_behalf() {
    // A filename from someone else's branch is typed into an agent's input.
    // Left alone, the newline would read as the user pressing Enter, and
    // everything after it as a prompt they never wrote.
    let text = compose("a\nrm -rf ~\n.rs", "look at this");
    assert!(!text.contains('\n'), "got {text:?}");
    assert_eq!(text, "a rm -rf ~ .rs: look at this");
}

#[test]
fn a_newline_typed_into_the_prompt_is_flattened_too() {
    let text = compose("a.rs", "first\nsecond");
    assert_eq!(text, "a.rs: first second");
}

#[test]
fn an_ansi_escape_in_the_path_cannot_repaint_the_terminal() {
    // ESC [ 2 J clears the screen; a path is not entitled to do that.
    let text = compose("\u{1b}[2Jgone.rs", "hi");
    assert!(!text.contains('\u{1b}'), "got {text:?}");
    assert_eq!(text, " [2Jgone.rs: hi");
}

#[test]
fn c1_control_characters_are_stripped_as_well() {
    // U+009B is a single-character CSI: an escape sequence without the ESC.
    let text = compose("a\u{9b}2Kb.rs", "hi");
    assert!(!text.contains('\u{9b}'), "got {text:?}");
}

#[test]
fn a_carriage_return_cannot_overwrite_what_came_before() {
    let text = compose("a.rs", "visible\rhidden");
    assert!(!text.contains('\r'), "got {text:?}");
    assert_eq!(text, "a.rs: visible hidden");
}

#[test]
fn ordinary_unicode_in_a_path_survives() {
    // Stripping controls must not touch legitimate non-ASCII filenames.
    let text = compose("dokumentů/přehled.rs", "co je tu?");
    assert_eq!(text, "dokumentů/přehled.rs: co je tu?");
}

#[test]
fn a_prompt_that_is_only_control_characters_leaves_just_the_path() {
    // Sanitising turns them into spaces, and the existing trim drops those.
    let text = compose("a.rs", "\n\r\t");
    assert_eq!(text, "a.rs");
}

#[test]
fn a_shell_that_is_not_an_agent_is_skipped() {
    // No `agent` field: a plain pane, which must never be typed into.
    let json = r#"{"id":"x","result":{"agents":[
{"agent_status":"unknown","cwd":"/repo","pane_id":"w1:p9","workspace_id":"w1"}
],"type":"agent_list"}}"#;
    assert!(parse_agents(json).is_empty());
}

#[test]
fn a_malformed_response_yields_no_agents() {
    assert!(parse_agents("{\"garbage\":true}").is_empty());
    assert!(parse_agents("").is_empty());
}
