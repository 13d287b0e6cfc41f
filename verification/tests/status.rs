//! Reading what `git status` prints.

use herdr_strays::git::status::{parse_status, parse_upstream};
use herdr_strays::model::{Stray, StrayStatus, Upstream};

/// Verbatim `git status --porcelain=v2 -z --untracked-files=normal` output,
/// captured from a real repository (git 2.x) containing one file of every
/// kind. `ignored.log` is absent because `.gitignore` covers it.
const REAL_OUTPUT: &[u8] = b"\
1 A. N... 000000 100644 100644 0000000000000000000000000000000000000000 3e757656cf36eca53338e520d134963a44f793f8 added.txt\0\
1 .D N... 100644 100644 000000 587be6b4c3f93f93c489c0111bba5596147a26cb 587be6b4c3f93f93c489c0111bba5596147a26cb del.txt\0\
1 .M N... 100644 100644 100644 5626abf0f72e58d7a153368ba57db4c673c0e171 5626abf0f72e58d7a153368ba57db4c673c0e171 mod.txt\0\
2 R. N... 100644 100644 100644 3367afdbbf91e638efe983616377c60477cc6612 3367afdbbf91e638efe983616377c60477cc6612 R100 renamed.txt\0ren.txt\0\
? .gitignore\0\
? untracked file.txt\0";

fn find<'a>(strays: &'a [Stray], path: &str) -> &'a Stray {
    strays
        .iter()
        .find(|s| s.path == path)
        .unwrap_or_else(|| panic!("{path} missing from {strays:?}"))
}

#[test]
fn parses_every_marker_from_real_git_output() {
    let strays = parse_status(REAL_OUTPUT);

    assert_eq!(strays.len(), 6, "got {strays:?}");
    assert_eq!(find(&strays, "added.txt").status, StrayStatus::Added);
    assert_eq!(find(&strays, "del.txt").status, StrayStatus::Deleted);
    assert_eq!(find(&strays, "mod.txt").status, StrayStatus::Modified);
    assert_eq!(find(&strays, ".gitignore").status, StrayStatus::Untracked);
}

#[test]
fn rename_keeps_its_original_path_and_consumes_the_extra_field() {
    let strays = parse_status(REAL_OUTPUT);

    assert_eq!(
        find(&strays, "renamed.txt").status,
        StrayStatus::Renamed {
            from: "ren.txt".to_string()
        }
    );
    // If the trailing `ren.txt` field leaked, it would appear as its own
    // entry and the count would be wrong.
    assert!(
        !strays.iter().any(|s| s.path == "ren.txt"),
        "the rename source must not become its own stray"
    );
}

#[test]
fn untracked_path_containing_a_space_is_not_truncated() {
    let strays = parse_status(REAL_OUTPUT);
    find(&strays, "untracked file.txt");
}

#[test]
fn ignored_files_never_appear() {
    let strays = parse_status(REAL_OUTPUT);
    assert!(!strays.iter().any(|s| s.path == "ignored.log"));
}

#[test]
fn tracked_path_containing_a_space_survives_field_splitting() {
    let input = b"1 .M N... 100644 100644 100644 abc def my file.rs\0";
    let strays = parse_status(input);
    assert_eq!(strays.len(), 1);
    assert_eq!(strays[0].path, "my file.rs".to_string());
}

#[test]
fn empty_output_means_a_clean_worktree() {
    assert!(parse_status(b"").is_empty());
}

#[test]
fn an_unmerged_entry_is_reported_as_a_conflict() {
    // A conflict blocks work in a way an ordinary edit does not, so it must
    // be distinguishable from one at a glance.
    let input = b"u UU N... 100644 100644 100644 100644 aaa bbb ccc conflicted.rs\0";
    let strays = parse_status(input);
    assert_eq!(strays.len(), 1);
    assert_eq!(strays[0].status, StrayStatus::Conflicted);
    assert_eq!(strays[0].path, "conflicted.rs".to_string());
}

#[test]
fn every_unmerged_combination_is_a_conflict() {
    // Porcelain v2 spells out which side did what — both deleted, both
    // added, one side modified. They are all conflicts to a viewer.
    for xy in [b"DD", b"AU", b"UD", b"UA", b"DU", b"AA", b"UU"] {
        let mut input = Vec::from(&b"u "[..]);
        input.extend_from_slice(xy);
        input.extend_from_slice(
            b" N... 100644 100644 100644 100644 aaa bbb ccc conflicted.rs\0",
        );

        let strays = parse_status(&input);
        assert_eq!(
            strays[0].status,
            StrayStatus::Conflicted,
            "{} should be a conflict",
            String::from_utf8_lossy(xy)
        );
    }
}

#[test]
fn a_conflicted_file_can_still_be_opened() {
    // Resolving a conflict means editing the file, so `e` must work on it.
    assert!(StrayStatus::Conflicted.is_openable());
}

#[test]
fn a_conflict_carries_its_own_marker() {
    assert_eq!(StrayStatus::Conflicted.glyph(), 'U');
}

#[test]
fn unknown_record_types_are_skipped_not_fatal() {
    let input = b"! ignored.log\0x totally-new-record\0? real.rs\0";
    let strays = parse_status(input);
    assert_eq!(strays.len(), 1);
    assert_eq!(strays[0].path, "real.rs".to_string());
}

#[test]
fn staged_and_unstaged_changes_both_surface() {
    // `MM` — staged edit plus a further worktree edit.
    let input = b"1 MM N... 100644 100644 100644 aaa bbb both.rs\0";
    let strays = parse_status(input);
    assert_eq!(strays[0].status, StrayStatus::Modified);
}

#[test]
fn results_are_sorted_by_path() {
    let strays = parse_status(REAL_OUTPUT);
    let paths: Vec<_> = strays.iter().map(|s| s.path.clone()).collect();
    let mut sorted = paths.clone();
    sorted.sort();
    assert_eq!(paths, sorted);
}

/// Verbatim records for git submodules, captured from a real repository.
/// The `<sub>` field is `SC..` rather than `N...`, and the modes are the
/// `160000` gitlink mode — these are directories, not files.
const SUBMODULE_OUTPUT: &[u8] = b"\
1 .M SC.. 160000 160000 160000 aaa bbb frontend/web-app\0\
1 .M SC.. 160000 160000 160000 ccc ddd services/api-gateway\0\
1 .M N... 100644 100644 100644 eee fff src/real-file.rs\0";

#[test]
fn a_submodule_is_not_reported_as_a_modified_file() {
    let strays = parse_status(SUBMODULE_OUTPUT);

    assert_eq!(
        find(&strays, "frontend/web-app").status,
        StrayStatus::Submodule,
        "a gitlink is a directory, not an editable file"
    );
    assert_eq!(
        find(&strays, "services/api-gateway").status,
        StrayStatus::Submodule
    );
}

#[test]
fn an_ordinary_file_alongside_submodules_stays_modified() {
    let strays = parse_status(SUBMODULE_OUTPUT);
    assert_eq!(
        find(&strays, "src/real-file.rs").status,
        StrayStatus::Modified
    );
}

#[test]
fn a_submodule_is_never_openable() {
    assert!(!StrayStatus::Submodule.is_openable());
}

#[test]
fn a_submodule_carries_its_own_marker() {
    assert_eq!(StrayStatus::Submodule.glyph(), 'S');
}

#[test]
fn upstream_distance_reads_both_columns() {
    // `rev-list --count --left-right` prints "<behind>\t<ahead>": the left
    // side is the upstream's exclusive commits, the right side is ours.
    assert_eq!(
        parse_upstream("3\t5\n"),
        Some(Upstream {
            ahead: 5,
            behind: 3
        })
    );
}

#[test]
fn a_branch_level_with_its_upstream_is_neither_ahead_nor_behind() {
    let up = parse_upstream("0\t0\n").expect("in sync is still an answer");
    assert_eq!(up.ahead, 0);
    assert_eq!(up.behind, 0);
    assert!(up.is_in_sync());
}

#[test]
fn a_branch_with_no_upstream_reports_nothing() {
    // git writes an error and nothing to stdout; an empty answer must not
    // be read as "in sync", which would be a lie.
    assert_eq!(parse_upstream(""), None);
    assert_eq!(parse_upstream("\n"), None);
}

#[test]
fn unparsable_counts_are_refused_rather_than_guessed() {
    assert_eq!(parse_upstream("garbage"), None);
    assert_eq!(parse_upstream("1"), None, "one column is not a pair");
    assert_eq!(parse_upstream("x\ty"), None);
}

#[test]
fn a_renamed_submodule_is_still_a_submodule() {
    // A moved gitlink must not become a Renamed file the editor would open.
    let input = b"2 R. SC.. 160000 160000 160000 aaa bbb R100 new/place\0old/place\0";
    let strays = parse_status(input);
    assert_eq!(strays.len(), 1);
    assert_eq!(strays[0].status, StrayStatus::Submodule);
    assert_eq!(strays[0].path, "new/place".to_string());
}
