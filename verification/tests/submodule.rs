//! Repositories inside repositories.

use herdr_strays::git::submodule::{ancestors, expanded, owning_repo, Checkout, Flags};
use herdr_strays::model::{Stray, StrayStatus};

#[test]
fn an_ordinary_file_has_no_submodule_flags() {
    assert_eq!(Flags::parse(b"N..."), None);
}

#[test]
fn a_clean_submodule_reports_nothing_to_read() {
    // `S...` — tracked, but nothing changed inside it.
    let flags = Flags::parse(b"S...").expect("a submodule");
    assert!(!flags.has_contents_to_read());
}

#[test]
fn a_moved_commit_alone_is_not_worth_a_git_call() {
    // `SC..` is a change to the *outer* repository: it points at a
    // different revision. The submodule's worktree can be spotless.
    let flags = Flags::parse(b"SC..").expect("a submodule");
    assert!(flags.commit_changed);
    assert!(
        !flags.has_contents_to_read(),
        "nothing inside differs from its own HEAD"
    );
}

#[test]
fn modified_or_untracked_contents_are_worth_reading() {
    // `S.MU`, captured from a real repository with an edited and a new
    // file inside the submodule.
    let flags = Flags::parse(b"S.MU").expect("a submodule");
    assert!(flags.modified);
    assert!(flags.untracked);
    assert!(flags.has_contents_to_read());
}

#[test]
fn each_flag_is_read_from_its_own_position() {
    let only_modified = Flags::parse(b"S.M.").expect("a submodule");
    assert!(!only_modified.commit_changed);
    assert!(only_modified.modified);
    assert!(!only_modified.untracked);

    let only_untracked = Flags::parse(b"S..U").expect("a submodule");
    assert!(!only_untracked.modified);
    assert!(only_untracked.untracked);
}

#[test]
fn a_truncated_field_does_not_panic() {
    // Never seen from git, but the parser must not index past the end.
    let flags = Flags::parse(b"S").expect("still starts with S");
    assert!(!flags.has_contents_to_read());
}

#[test]
fn a_list_without_submodules_is_returned_untouched() {
    // No submodule means no git call at all.
    let strays = vec![
        Stray::new(StrayStatus::Modified, "src/a.rs"),
        Stray::new(StrayStatus::Untracked, "b.txt"),
    ];
    let expanded = expanded(strays.clone(), &Vec::new());
    assert_eq!(expanded, strays);
}

#[test]
fn a_path_in_an_ordinary_repository_is_left_alone() {
    // No `.git` anywhere along the way, so nothing to redirect: the common
    // case must not pay for the rare one.
    assert_eq!(ancestors("src/main.rs"), vec!["src"]);
    let (owner, within) = owning_repo("/repo", "src/main.rs", &vec![false]);

    assert_eq!(owner, "/repo");
    assert_eq!(within, "src/main.rs");
}

#[test]
fn a_path_inside_a_submodule_resolves_to_that_submodule() {
    let path = "vendor/lib/src/a.rs";
    assert_eq!(ancestors(path), vec!["vendor", "vendor/lib", "vendor/lib/src"]);
    let (owner, within) = owning_repo("/repo", path, &vec![false, true, false]);

    assert_eq!(owner, "/repo/vendor/lib");
    assert_eq!(within, "src/a.rs");
}

#[test]
fn the_innermost_repository_wins() {
    // A submodule inside a submodule: the file belongs to the deepest one
    // that tracks it, not the first one found on the way down.
    let (owner, within) = owning_repo("/repo", "outer/inner/src/deep.rs", &vec![true, true, false]);

    assert_eq!(owner, "/repo/outer/inner");
    assert_eq!(within, "src/deep.rs");
}

#[test]
fn the_submodule_directory_itself_is_not_its_own_owner() {
    // The gitlink row points at the submodule, and that row is the outer
    // repository's to answer for: it is the outer repository that recorded
    // which commit is checked out there.
    assert_eq!(ancestors("vendor/lib"), vec!["vendor"]);
    let (owner, within) = owning_repo("/repo", "vendor/lib", &vec![false]);

    assert_eq!(owner, "/repo", "the gitlink belongs to the outer repo");
    assert_eq!(within, "vendor/lib");
}

#[test]
fn an_unreadable_submodule_leaves_its_own_row_standing() {
    // A gitlink pointing at a directory that was never initialised. The
    // reader should still see that the submodule strayed.
    let strays = vec![Stray::new(StrayStatus::Submodule, "vendor/lib")];
    let expanded = expanded(strays, &Vec::new());

    assert_eq!(expanded.len(), 1);
    assert_eq!(expanded[0].status, StrayStatus::Submodule);
}

#[test]
fn what_strayed_inside_a_submodule_is_named_from_the_outside() {
    let strays = vec![Stray::new(StrayStatus::Submodule, "vendor/lib")];
    let inner = Checkout {
        output: Some(b"? deep.rs\0".to_vec()),
        inside: Vec::new(),
    };
    let outer = Checkout {
        output: Some(
            b"1 .M N... 100644 100644 100644 aaa bbb src/a.rs\0\
1 .M S.M. 160000 160000 160000 ccc ddd inner\0"
                .to_vec(),
        ),
        inside: vec![("inner".to_string(), inner)],
    };
    let expanded = expanded(strays, &vec![("vendor/lib".to_string(), outer)]);

    let paths: Vec<&str> = expanded.iter().map(|s| s.path.as_str()).collect();
    assert_eq!(
        paths,
        vec![
            "vendor/lib",
            "vendor/lib/inner",
            "vendor/lib/inner/deep.rs",
            "vendor/lib/src/a.rs"
        ]
    );
}
