//! Narrowing the list to the files a query names.

use herdr_strays::filter::{self, score};

#[test]
fn an_empty_query_matches_everything() {
    // An empty filter line shows the whole list, not none of it.
    assert!(filter::matches("", "anything at all"));
    assert!(filter::matches("", ""));
}

#[test]
fn characters_match_in_order_but_not_adjacently() {
    // The reason three characters are enough to find a deep path.
    assert!(filter::matches("amd", "src/app/mod.rs"));
    assert!(filter::matches("srcmod", "src/app/mod.rs"));
}

#[test]
fn characters_out_of_order_do_not_match() {
    assert!(!filter::matches("dma", "src/app/mod.rs"));
}

#[test]
fn a_character_the_text_lacks_does_not_match() {
    assert!(!filter::matches("xyz", "src/app/mod.rs"));
    assert!(!filter::matches("modz", "src/app/mod.rs"));
}

#[test]
fn filter_a_lower_case_query_ignores_case() {
    assert!(filter::matches("readme", "README.md"));
    assert!(filter::matches("cargo", "Cargo.toml"));
}

#[test]
fn filter_an_upper_case_query_demands_it() {
    // Smart case, as vim and ripgrep do it: typing a capital means it.
    assert!(filter::matches("README", "README.md"));
    assert!(!filter::matches("README", "readme.md"));
    assert!(filter::matches("Row", "enum Row {"));
    assert!(!filter::matches("Row", "let row = 1;"));
}

#[test]
fn a_query_longer_than_the_text_cannot_match() {
    assert!(!filter::matches("abcdef", "abc"));
}

#[test]
fn a_non_matching_query_has_no_score() {
    assert_eq!(score("xyz", "src/app/mod.rs"), None);
}

#[test]
fn a_tighter_match_scores_better_than_a_scattered_one() {
    // `mod` sits together in the first and is spread across the second.
    let tight = score("mod", "src/mod.rs").expect("matches");
    let loose = score("mod", "m-many-others-d").expect("matches");
    assert!(tight < loose, "tight {tight} should beat loose {loose}");
}

#[test]
fn a_match_in_the_filename_beats_one_in_a_parent_directory() {
    // A query is usually about a filename.
    let in_name = score("app", "src/deep/app.rs").expect("matches");
    let in_dir = score("app", "app/deep/other.rs").expect("matches");
    assert!(
        in_name < in_dir,
        "filename {in_name} should beat directory {in_dir}"
    );
}

#[test]
fn an_exact_filename_scores_well() {
    let exact = score("mod.rs", "src/app/mod.rs").expect("matches");
    let partial = score("mod.rs", "src/models/other-runner.rs").expect("matches");
    assert!(
        exact < partial,
        "exact {exact} should beat partial {partial}"
    );
}

#[test]
fn matching_and_scoring_agree_on_what_matches() {
    // A query that scores must match, and one that matches must score:
    // the list would otherwise show rows it cannot order, or vice versa.
    for (query, text) in [
        ("amd", "src/app/mod.rs"),
        ("xyz", "src/app/mod.rs"),
        ("", "anything"),
        ("README", "readme.md"),
    ] {
        assert_eq!(
            filter::matches(query, text),
            score(query, text).is_some(),
            "{query:?} against {text:?}"
        );
    }
}
