//! What a forge says about a repository, and which forge it is on.

use herdr_strays::forge::{host_of_url, Ci, ForgeStatus, Host, Review};

#[test]
fn an_https_github_remote_is_github() {
    assert_eq!(
        host_of_url("https://github.com/aleslanger/herdr-strays.git"),
        Host::GitHub
    );
}

#[test]
fn an_ssh_github_remote_is_github() {
    // The scp-like form, which is what `gh` sets up by default.
    assert_eq!(
        host_of_url("git@github.com:aleslanger/herdr-strays.git"),
        Host::GitHub
    );
}

#[test]
fn a_lookalike_domain_is_not_github() {
    // The token `gh` holds is the reason this matters: a remote pointing at
    // a domain that merely contains "github.com" must not be treated as the
    // real one.
    assert_eq!(
        host_of_url("https://github.com.evil.example/owner/repo.git"),
        Host::Other
    );
    assert_eq!(host_of_url("git@notgithub.com:owner/repo.git"), Host::Other);
}

#[test]
fn another_forge_is_other_rather_than_a_failure() {
    assert_eq!(host_of_url("git@gitlab.com:owner/repo.git"), Host::Other);
    assert_eq!(host_of_url("https://codeberg.org/owner/repo"), Host::Other);
}

#[test]
fn a_repository_with_no_remote_at_all_is_other() {
    // A local-only repository is normal, not broken.
    assert_eq!(host_of_url(""), Host::Other);
}

#[test]
fn nothing_known_draws_nothing() {
    // The column has to be free for the repositories that cannot fill it.
    assert_eq!(Ci::Unknown.marker(), None);
    assert!(!ForgeStatus::default().is_known());
}

#[test]
fn a_cancelled_run_is_not_reported_as_a_failure() {
    // It says nothing about the code, and a ✗ would send someone hunting a
    // bug CI never claimed to find.
    assert_ne!(Ci::Neutral.marker(), Ci::Failed.marker());
}

#[test]
fn a_pull_request_nobody_has_reviewed_is_not_news() {
    assert!(!Review::default().is_pending());
    assert_eq!(Review::default().label(), None);
}

#[test]
fn comments_are_counted_on_the_label() {
    let review = Review {
        comments: 3,
        changes_requested: false,
    };
    assert_eq!(review.label().as_deref(), Some("3💬"));
}

/// A block with nothing said is still a block.
#[test]
fn changes_requested_shows_even_with_no_comments() {
    let review = Review {
        comments: 0,
        changes_requested: true,
    };
    assert!(review.is_pending());
    assert_eq!(review.label().as_deref(), Some("±"));
}

#[test]
fn both_are_shown_when_both_are_true() {
    let review = Review {
        comments: 2,
        changes_requested: true,
    };
    assert_eq!(review.label().as_deref(), Some("2💬 ±"));
}

/// A branch with no pull request is the ordinary case, not a gap in the
/// data, so an unasked status must still read as "nothing known".
#[test]
fn a_status_carrying_only_a_review_is_known() {
    let status = ForgeStatus {
        review: Some(Review {
            comments: 1,
            changes_requested: false,
        }),
        ..Default::default()
    };
    assert!(status.is_known());
    assert!(!ForgeStatus::default().is_known());
}

#[test]
fn an_at_sign_in_the_path_does_not_make_another_host_github() {
    assert_eq!(
        host_of_url("https://evil.example/x@github.com/o/r.git"),
        Host::Other
    );
    assert_eq!(
        host_of_url("https://ada@github.com/o/r@v2.git"),
        Host::GitHub
    );
    assert_eq!(host_of_url("ssh://git@github.com:22/o/r.git"), Host::GitHub);
}
