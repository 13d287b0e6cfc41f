//! Handing a file to the reader's editor.

use herdr_strays::editor::{build_argv, editor_setting, target_path, EditorError};
use herdr_strays::model::{Stray, StrayStatus};

fn argv_strings(setting: &str, file: &str) -> Vec<String> {
    build_argv(setting, file).expect("argv should build")
}

#[test]
fn plain_editor_gets_the_file_as_a_second_argument() {
    assert_eq!(
        argv_strings("vim", "/repo/a.rs"),
        vec!["vim", "--", "/repo/a.rs"]
    );
}

#[test]
fn editor_arguments_survive_word_splitting() {
    assert_eq!(
        argv_strings("code --wait", "/repo/a.rs"),
        vec!["code", "--wait", "--", "/repo/a.rs"]
    );
}

#[test]
fn quoted_editor_path_stays_one_argument() {
    assert_eq!(
        argv_strings("\"/opt/my editor/bin\" -n", "/repo/a.rs"),
        vec!["/opt/my editor/bin", "-n", "--", "/repo/a.rs"]
    );
}

#[test]
fn path_with_a_space_stays_a_single_argument() {
    let argv = argv_strings("vim", "/repo/my file.rs");
    assert_eq!(argv, vec!["vim", "--", "/repo/my file.rs"]);
    assert_eq!(argv.len(), 3, "the path must not be split on its space");
}

#[test]
fn path_with_a_quote_is_passed_through_verbatim() {
    let argv = argv_strings("vim", "/repo/we\"rd.rs");
    assert_eq!(argv, vec!["vim", "--", "/repo/we\"rd.rs"]);
}

#[test]
fn path_with_shell_metacharacters_is_never_interpreted() {
    // The whole point of argv: this is one filename, not a command chain.
    let hostile = "/repo/a; rm -rf ~; echo .rs";
    let argv = argv_strings("vim", hostile);
    assert_eq!(argv, vec!["vim", "--", hostile]);
    assert_eq!(argv.len(), 3);
}

#[test]
fn path_with_command_substitution_is_never_interpreted() {
    let hostile = "/repo/$(whoami)`id`.rs";
    let argv = argv_strings("vim", hostile);
    assert_eq!(argv, vec!["vim", "--", hostile]);
}

#[test]
fn path_with_a_newline_stays_one_argument() {
    let hostile = "/repo/a\nrm -rf ~\n.rs";
    let argv = argv_strings("vim", hostile);
    assert_eq!(argv, vec!["vim", "--", hostile]);
    assert_eq!(argv.len(), 3);
}

#[test]
fn the_file_is_always_the_last_argument() {
    let argv = argv_strings("code --wait --new-window", "/repo/a.rs");
    assert_eq!(argv.last().unwrap(), "/repo/a.rs");
}

#[test]
fn unbalanced_quotes_in_editor_are_reported_not_guessed() {
    let result = build_argv("code \"--wait", "/repo/a.rs");
    assert!(matches!(result, Err(EditorError::Unparsable(_))));
}

#[test]
fn blank_editor_setting_is_rejected() {
    let result = build_argv("   ", "/repo/a.rs");
    assert_eq!(result.unwrap_err(), EditorError::Empty);
}

#[test]
fn deleted_stray_refuses_hand_off_instead_of_panicking() {
    let stray = Stray::new(StrayStatus::Deleted, "gone.rs");
    let result = target_path("/repo", &stray);
    assert_eq!(result.unwrap_err(), EditorError::NothingToOpen);
}

#[test]
fn modified_stray_resolves_to_an_absolute_path() {
    let stray = Stray::new(StrayStatus::Modified, "src/a.rs");
    let path = target_path("/repo", &stray).expect("should resolve");
    assert_eq!(path, "/repo/src/a.rs".to_string());
}

#[test]
fn every_status_but_deleted_is_openable() {
    assert!(StrayStatus::Modified.is_openable());
    assert!(StrayStatus::Added.is_openable());
    assert!(StrayStatus::Untracked.is_openable());
    assert!(StrayStatus::Renamed {
        from: "old".to_string()
    }
    .is_openable());
    assert!(!StrayStatus::Deleted.is_openable());
}

#[test]
fn a_path_that_looks_like_a_flag_is_separated_by_a_double_dash() {
    // Observed in a real worktree: files literally named `--squash` and
    // `-R`, created by a mistyped redirect. Without `--`, the editor reads
    // them as options rather than filenames.
    let argv = argv_strings("vim", "--squash");
    assert_eq!(argv, vec!["vim", "--", "--squash"]);
}

#[test]
fn a_short_flag_named_file_is_separated_too() {
    assert_eq!(argv_strings("vim", "-R"), vec!["vim", "--", "-R"]);
}

#[test]
fn the_separator_sits_immediately_before_the_file() {
    let argv = argv_strings("code --wait --new-window", "/repo/a.rs");
    assert_eq!(
        argv[argv.len() - 2],
        "--",
        "separator must be second to last"
    );
    assert_eq!(argv.last().unwrap(), "/repo/a.rs");
}

#[test]
fn a_submodule_is_refused_as_a_directory() {
    let stray = Stray::new(StrayStatus::Submodule, "vendor/lib");
    assert_eq!(
        target_path("/repo", &stray).unwrap_err(),
        EditorError::IsSubmodule
    );
}

#[test]
fn the_visual_editor_is_asked_for_first() {
    let set = |s: &str| Some(s.to_string());
    assert_eq!(editor_setting(set("code"), set("vim")), "code");
    assert_eq!(editor_setting(None, set("vim")), "vim");
    assert_eq!(editor_setting(None, None), "vi");
}

#[test]
fn the_editor_errors_say_what_is_wrong() {
    assert_eq!(
        EditorError::NothingToOpen.message(),
        "deleted file — nothing left in the worktree to open"
    );
    assert_eq!(
        EditorError::IsSubmodule.message(),
        "submodule — a directory, not a file to open"
    );
    assert_eq!(
        EditorError::Unparsable("code \"".to_string()).message(),
        "could not parse $EDITOR (code \") into arguments"
    );
    assert_eq!(EditorError::Empty.message(), "$EDITOR is set but empty");
}
