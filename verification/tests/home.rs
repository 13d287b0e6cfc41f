//! Where the reader's home directory is.

use herdr_strays::home::dir;

fn set(value: &str) -> Option<String> {
    Some(value.to_string())
}

#[test]
fn home_is_used_when_set() {
    assert_eq!(dir(set("/home/ada"), None, None, None), set("/home/ada"));
}

#[test]
fn userprofile_stands_in_where_there_is_no_home() {
    // The Windows case: without this the config file is never found.
    assert_eq!(
        dir(None, set(r"C:\Users\Ada"), None, None),
        set(r"C:\Users\Ada")
    );
}

#[test]
fn home_wins_over_userprofile() {
    // A Unix user who exports HOME means it, even under an emulator that
    // also sets USERPROFILE.
    assert_eq!(
        dir(set("/home/ada"), set(r"C:\Users\Ada"), None, None),
        set("/home/ada")
    );
}

#[test]
fn the_drive_and_path_pair_is_joined() {
    assert_eq!(
        dir(None, None, set("C:"), set(r"\Users\Ada")),
        set(r"C:\Users\Ada")
    );
}

#[test]
fn half_the_pair_is_not_a_home() {
    // `C:` alone is not this user's directory; guessing would write files
    // somewhere unexpected.
    assert_eq!(dir(None, None, set("C:"), None), None);
    assert_eq!(dir(None, None, None, set(r"\Users\Ada")), None);
}

#[test]
fn an_empty_variable_is_no_home_at_all() {
    // `HOME=` would otherwise put the config file at the filesystem root.
    assert_eq!(dir(set(""), None, None, None), None);
    assert_eq!(
        dir(set(""), set(r"C:\Users\Ada"), None, None),
        set(r"C:\Users\Ada")
    );
}

#[test]
fn nothing_set_names_no_home() {
    assert_eq!(dir(None, None, None, None), None);
}
