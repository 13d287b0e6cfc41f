//! What the reader can set.

use herdr_strays::config::keys::{Key, Modifiers};
use herdr_strays::config::{
    config_path, load, parse, Action, Config, DEFAULT_FORGE_INTERVAL_SECS, DEFAULT_MAX_COMMITS,
    DEFAULT_SIDE_BY_SIDE_MIN_WIDTH,
};

#[test]
fn an_empty_file_is_the_defaults() {
    // The whole promise of "absent is not empty": a reader who writes a
    // file and sets nothing must get exactly what they had before.
    assert_eq!(parse("").unwrap(), Config::default());
}

#[test]
fn an_absent_field_keeps_its_default() {
    // One threshold set, the rest untouched. Without `Option` per field
    // this would zero the others.
    let config = parse("[thresholds]\nauto_fold = 3\n").unwrap();
    assert_eq!(config.thresholds.auto_fold, 3);
    assert_eq!(config.thresholds.max_commits, DEFAULT_MAX_COMMITS);
    assert_eq!(
        config.thresholds.side_by_side_min_width,
        DEFAULT_SIDE_BY_SIDE_MIN_WIDTH
    );
}

#[test]
fn every_threshold_can_be_set() {
    let config = parse(
        "[thresholds]\n\
         auto_fold = 1\n\
         side_by_side_min_width = 2\n\
         tick_ms = 3\n\
         debounce_ms = 4\n\
         max_commits = 5\n",
    )
    .unwrap();

    assert_eq!(config.thresholds.auto_fold, 1);
    assert_eq!(config.thresholds.side_by_side_min_width, 2);
    assert_eq!(config.thresholds.tick_ms, 3);
    assert_eq!(config.thresholds.debounce_ms, 4);
    assert_eq!(config.thresholds.max_commits, 5);
}

#[test]
fn the_forge_can_be_turned_off() {
    // The one setting a reader on a metered or unauthenticated machine
    // needs: no `gh`, no network, no waiting.
    let config = parse("[forge]\nenabled = false\n").unwrap();
    assert!(!config.forge.enabled);
    assert_eq!(config.forge.interval_secs, DEFAULT_FORGE_INTERVAL_SECS);
}

#[test]
fn the_forge_interval_can_be_set() {
    let config = parse("[forge]\ninterval_secs = 600\n").unwrap();
    assert_eq!(config.forge.interval_secs, 600);
    assert!(config.forge.enabled, "untouched, so still on");
}

/// Refused rather than clamped: nobody writes `0` meaning "every two
/// minutes", so silently rewriting it would hide the mistake until the
/// rate limit ran out.
#[test]
fn a_zero_interval_is_refused_rather_than_quietly_corrected() {
    let error =
        parse("[forge]\ninterval_secs = 0\n").expect_err("zero would ask on every frame");
    assert!(
        error.contains("interval_secs") && error.contains("enabled = false"),
        "the message must say what to write instead: {error}"
    );
}

/// Turning the forge off is how you say "never ask", and it must not also
/// require picking an interval that will never be used.
#[test]
fn a_zero_interval_is_allowed_once_the_forge_is_off() {
    let config = parse("[forge]\nenabled = false\ninterval_secs = 0\n").unwrap();
    assert!(!config.forge.enabled);
}

#[test]
fn every_panel_can_be_set() {
    let config = parse(
        "[panels]\n\
         show_all = true\n\
         show_help = true\n\
         side_by_side = false\n",
    )
    .unwrap();

    assert!(config.panels.show_all);
    assert!(config.panels.show_help);
    assert!(!config.panels.side_by_side);
}

#[test]
fn a_misspelled_field_is_refused_rather_than_ignored() {
    // `deny_unknown_fields` earns its keep here: a reader who writes
    // `auto_folds` has said something, and silently doing nothing about it
    // would leave them wondering why the setting had no effect.
    let error = parse("[thresholds]\nauto_folds = 3\n").unwrap_err();
    assert!(error.contains("auto_folds"), "{error}");
}

#[test]
fn a_misspelled_table_is_refused() {
    let error = parse("[threshold]\nauto_fold = 3\n").unwrap_err();
    assert!(error.contains("threshold"), "{error}");
}

#[test]
fn a_key_can_be_rebound_from_a_file() {
    let config = parse("[keys]\nx = \"quit\"\n").unwrap();
    assert_eq!(
        config
            .bindings
            .action(Key::Char('x'), Modifiers::none()),
        Some(Action::Quit)
    );
}

#[test]
fn a_key_can_be_unbound_from_a_file() {
    let config = parse("[keys]\nq = false\n").unwrap();
    assert_eq!(
        config
            .bindings
            .action(Key::Char('q'), Modifiers::none()),
        None
    );
    // ctrl-c was bound to quit separately and is untouched, so a reader who
    // unbinds `q` can still leave.
    assert_eq!(
        config
            .bindings
            .action(Key::Char('c'), Modifiers::control()),
        Some(Action::Quit)
    );
}

#[test]
fn a_key_bound_to_true_is_refused() {
    let error = parse("[keys]\nx = true\n").unwrap_err();
    assert!(error.contains('x'), "{error}");
}

#[test]
fn an_unknown_field_is_refused_with_the_ones_there_are() {
    assert_eq!(
        parse("[forge]\nevery = 1\n").unwrap_err(),
        "unknown field `every`, expected `enabled` or `interval_secs`"
    );
    assert_eq!(
        parse("[panels]\nhelp = true\n").unwrap_err(),
        "unknown field `help`, expected one of `show_all`, `show_help`, `side_by_side`"
    );
}

#[test]
fn a_value_of_the_wrong_sort_is_refused_by_what_it_is() {
    for (text, said) in [
        (
            "[thresholds]\nauto_fold = \"many\"\n",
            "invalid type: string \"many\", expected usize",
        ),
        (
            "[thresholds]\ntick_ms = -1\n",
            "invalid value: integer `-1`, expected u64",
        ),
        (
            "[thresholds]\ndebounce_ms = -9223372036854775808\n",
            "invalid value: integer `-9223372036854775808`, expected u64",
        ),
        (
            "[thresholds]\nside_by_side_min_width = 70000\n",
            "invalid value: integer `70000`, expected u16",
        ),
        (
            "[thresholds]\nmax_commits = 1.5\n",
            "invalid type: floating point `1.5`, expected usize",
        ),
        (
            "[thresholds]\nmax_commits = 2.0\n",
            "invalid type: floating point `2.0`, expected usize",
        ),
        (
            "[thresholds]\nmax_commits = -inf\n",
            "invalid type: floating point `-inf`, expected usize",
        ),
        (
            "[thresholds]\nmax_commits = [1]\n",
            "invalid type: sequence, expected usize",
        ),
        (
            "[thresholds]\ntick_ms = 1979-05-27\n",
            "invalid type: map, expected u64",
        ),
        (
            "[panels]\nshow_all = 1\n",
            "invalid type: integer `1`, expected a boolean",
        ),
        (
            "[forge]\ninterval_secs = true\n",
            "invalid type: boolean `true`, expected u64",
        ),
        (
            "forge = 3\n",
            "invalid type: integer `3`, expected struct ForgeFile",
        ),
        ("keys = 3\n", "invalid type: integer `3`, expected a map"),
        (
            "[keys]\nx = 3\n",
            "data did not match any variant of untagged enum KeyValue",
        ),
    ] {
        assert_eq!(parse(text).unwrap_err(), said);
    }
}

#[test]
fn what_is_not_toml_is_refused_in_the_parsers_words() {
    assert!(!parse("[thresholds\n").unwrap_err().is_empty());
}

#[test]
fn the_first_bad_key_as_written_is_the_one_named() {
    let error = parse("[keys]\nz = true\na = true\n").unwrap_err();
    assert_eq!(error, "\"z\" = true says nothing about what it does");
}

#[test]
fn the_config_file_follows_the_environment() {
    let set = |s: &str| Some(s.to_string());
    assert_eq!(
        config_path(&set("/etc/xdg"), &set("/home/ada")).as_deref(),
        Some("/etc/xdg/herdr-strays/config.toml")
    );
    assert_eq!(
        config_path(&set(""), &set("/home/ada")).as_deref(),
        Some("/home/ada/.config/herdr-strays/config.toml")
    );
    assert_eq!(config_path(&None, &None), None);
}

#[test]
fn a_missing_file_is_the_defaults_and_a_broken_one_is_reported() {
    let path = Some("/c.toml".to_string());
    assert_eq!(load(path.clone(), Ok(None)).unwrap(), Config::default());
    assert_eq!(load(None, Ok(None)).unwrap(), Config::default());
    assert_eq!(
        load(path.clone(), Err("permission denied".to_string()))
            .unwrap_err()
            .message(),
        "could not read /c.toml: permission denied"
    );
    assert_eq!(
        load(path, Ok(Some("[keys]\nx = true\n".to_string())))
            .unwrap_err()
            .message(),
        "/c.toml: \"x\" = true says nothing about what it does"
    );
}

/// The sample config that the documentation gives.
const SAMPLE: &str = "\
[thresholds]
auto_fold = 25
side_by_side_min_width = 80
tick_ms = 250
debounce_ms = 400
max_commits = 200

[panels]
show_all = false
show_help = false
side_by_side = true

[forge]
enabled = true
interval_secs = 120

[keys]
x = \"open-editor\"
r = false
";

#[test]
fn the_documented_sample_is_a_config_the_reader_could_write() {
    let config = parse(SAMPLE).expect("the documented sample parses");

    // Spot-check one value from each table, so a renamed field is caught as
    // more than "it still parsed".
    assert_eq!(config.thresholds.max_commits, DEFAULT_MAX_COMMITS);
    assert!(config.panels.side_by_side);
    assert_eq!(
        config.bindings.action(Key::Char('x'), Modifiers::none()),
        Some(Action::OpenEditor)
    );
}

/// The action names that the documentation lists.
const LISTED: &str = "\
`quit`, `help`, `refresh`, `select-next`, `select-previous`, `toggle-collapsed`,
`scroll-diff-down`, `scroll-diff-up`, `page-diff-down`, `page-diff-up`,
`scroll-diff-home`, `scroll-diff-end`, `toggle-base`, `toggle-split-diff`,
`toggle-show-all`, `toggle-scope`, `toggle-blame`, `toggle-history`,
`toggle-stashes`, `toggle-branches`, `toggle-graph`, `begin-filter`,
`begin-search`, `search-next`, `search-previous`, `cursor-down`, `cursor-up`,
`begin-annotation`, `remove-annotation`, `send-review`, `open-editor`,
`begin-prompt`, `git-menu`
";

#[test]
fn every_action_the_readme_lists_is_one_the_config_accepts() {
    // The list is what a reader copies from when writing `[keys]`. A name
    // that no longer parses would be an error message pointing at their
    // file for a mistake that is ours.
    let listed: Vec<&str> = LISTED.split('`').skip(1).step_by(2).collect();

    for name in &listed {
        assert!(
            Action::parse(name).is_some(),
            "an action is listed that the config refuses: {name:?}"
        );
    }
    assert_eq!(
        listed.len(),
        Action::ALL.len(),
        "{} of {} actions are listed",
        listed.len(),
        Action::ALL.len()
    );
}

#[test]
fn a_list_in_place_of_a_table_gives_its_entries_by_their_places() {
    let config = parse("thresholds = [1, 2, 3, 4, 5, 6]\n").unwrap();
    assert_eq!(config.thresholds.auto_fold, 1);
    assert_eq!(config.thresholds.side_by_side_min_width, 2);
    assert_eq!(config.thresholds.tick_ms, 3);
    assert_eq!(config.thresholds.debounce_ms, 4);
    assert_eq!(config.thresholds.max_commits, 5);

    assert_eq!(
        parse("panels = [true]\n").unwrap_err(),
        "invalid length 1, expected struct PanelsFile with 3 elements"
    );
    assert_eq!(
        parse("forge = [1]\n").unwrap_err(),
        "invalid type: integer `1`, expected a boolean"
    );
}
