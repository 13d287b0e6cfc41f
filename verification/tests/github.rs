//! Reading what `gh` prints.

use herdr_strays::forge::github::{
    parse_line_comments, parse_pr_count, parse_review, parse_run_id, parse_runs,
    parse_test_result, runs_call, Call,
};
use herdr_strays::forge::{Ci, Review, Tests};
use herdr_strays::git::run::GitError;

#[test]
fn a_successful_run_passed() {
    let out = br#"[{"status":"completed","conclusion":"success"}]"#;
    assert_eq!(parse_runs(out), Ci::Passed);
}

#[test]
fn a_failed_run_failed() {
    let out = br#"[{"status":"completed","conclusion":"failure"}]"#;
    assert_eq!(parse_runs(out), Ci::Failed);
}

#[test]
fn a_run_still_going_is_running() {
    // The conclusion is null until it finishes, so status has to carry it.
    let out = br#"[{"status":"in_progress","conclusion":null}]"#;
    assert_eq!(parse_runs(out), Ci::Running);
}

#[test]
fn a_cancelled_run_is_neutral_not_failed() {
    let out = br#"[{"status":"completed","conclusion":"cancelled"}]"#;
    assert_eq!(parse_runs(out), Ci::Neutral);
}

#[test]
fn a_conclusion_nobody_here_knows_is_unknown() {
    // GitHub is free to add conclusions. Reading one as a failure would
    // report a bug CI never claimed to have found.
    let out = br#"[{"status":"completed","conclusion":"quantum_flux"}]"#;
    assert_eq!(parse_runs(out), Ci::Unknown);
}

#[test]
fn a_repository_with_no_runs_is_unknown_rather_than_broken() {
    assert_eq!(parse_runs(b"[]"), Ci::Unknown);
}

#[test]
fn output_that_is_not_json_at_all_is_unknown() {
    // What an unauthenticated `gh` writes, or a future one that changed
    // its mind about the format.
    assert_eq!(parse_runs(b"gh: not authenticated"), Ci::Unknown);
    assert_eq!(parse_runs(b""), Ci::Unknown);
}

#[test]
fn open_pull_requests_are_counted() {
    let out = br#"[{"number":7},{"number":9}]"#;
    assert_eq!(parse_pr_count(out), Some(2));
}

/// The whole point of asking: `✗` says the run failed, this says the code
/// is what failed rather than the formatter.
#[test]
fn a_failed_test_step_is_reported_as_failing_tests() {
    let out = br#"{"jobs":[{"steps":[
        {"name":"Format","conclusion":"success"},
        {"name":"Test","conclusion":"failure"}
    ]}]}"#;
    assert_eq!(parse_test_result(out), Tests::Failed);
}

/// A red run whose tests are fine is worth as much as the failure itself:
/// it tells the reader the code is probably not the problem.
#[test]
fn a_run_that_failed_on_lint_leaves_the_tests_passing() {
    let out = br#"{"jobs":[{"steps":[
        {"name":"Clippy","conclusion":"failure"},
        {"name":"Test","conclusion":"success"}
    ]}]}"#;
    assert_eq!(parse_test_result(out), Tests::Passed);
}

/// What a workflow calls the step is up to whoever wrote it.
#[test]
fn the_step_name_is_matched_loosely() {
    for name in ["Run tests", "cargo test", "unit-tests", "pytest", "Jest"] {
        let out =
            format!(r#"{{"jobs":[{{"steps":[{{"name":"{name}","conclusion":"failure"}}]}}]}}"#);
        assert_eq!(
            parse_test_result(out.as_bytes()),
            Tests::Failed,
            "{name} was not recognised as a test step"
        );
    }
}

/// A failed run with no failed step — cancelled mid-flight, or a shape
/// nobody here understands. Guessing would put `tests✗` on a row whose
/// tests were never the problem.
#[test]
fn a_failure_that_cannot_be_attributed_stays_unknown() {
    assert_eq!(
        parse_test_result(br#"{"jobs":[{"steps":[]}]}"#),
        Tests::Unknown
    );
    assert_eq!(parse_test_result(b"gh: not authenticated"), Tests::Unknown);
    assert_eq!(parse_test_result(b"{}"), Tests::Unknown);
}

/// A matrix run has a job per platform, and the tests failing on either of
/// them is the tests failing.
#[test]
fn a_failure_in_any_job_of_a_matrix_counts() {
    let out = br#"{"jobs":[
        {"steps":[{"name":"Test","conclusion":"success"}]},
        {"steps":[{"name":"Test","conclusion":"failure"}]}
    ]}"#;
    assert_eq!(parse_test_result(out), Tests::Failed);
}

#[test]
fn the_run_id_is_read_back_for_asking_about_its_jobs() {
    let out = br#"[{"status":"completed","conclusion":"failure","databaseId":42}]"#;
    assert_eq!(parse_run_id(out), Some(42));
    assert_eq!(parse_run_id(b"[]"), None);
}

#[test]
fn a_line_comment_keeps_its_file_line_author_and_words() {
    let out = br#"[{"path":"src/a.rs","line":42,"body":"this leaks","user":{"login":"ada"}}]"#;
    let comments = parse_line_comments(out);

    assert_eq!(comments.len(), 1);
    assert_eq!(comments[0].file, "src/a.rs".to_string());
    assert_eq!(comments[0].line, 42);
    assert_eq!(comments[0].author, "ada");
    assert_eq!(comments[0].body, "this leaks");
}

/// A comment on code that has since been rewritten comes back with a null
/// `line`. Drawing it against whatever now occupies that position would
/// attach somebody's words to code they never saw.
#[test]
fn an_outdated_comment_is_dropped_rather_than_moved() {
    let out = br#"[{"path":"src/a.rs","line":null,"original_line":9,"body":"stale","user":{"login":"ada"}}]"#;
    assert!(parse_line_comments(out).is_empty());
}

/// `gh api --paginate` concatenates the pages as separate arrays rather
/// than merging them, so a long review must not stop at the first page.
#[test]
fn every_page_of_a_long_review_is_read() {
    let out = br#"[{"path":"a.rs","line":1,"body":"first","user":{"login":"ada"}}]
                  [{"path":"a.rs","line":2,"body":"second","user":{"login":"ada"}}]"#;
    let comments = parse_line_comments(out);

    assert_eq!(comments.len(), 2, "the second page was dropped");
    assert_eq!(comments[1].body, "second");
}

#[test]
fn a_comment_with_no_words_is_not_a_comment() {
    let out = br#"[{"path":"a.rs","line":1,"body":"   ","user":{"login":"ada"}}]"#;
    assert!(parse_line_comments(out).is_empty());
}

/// The same degradation as everything else here: an unauthenticated `gh`
/// or a future shape must leave the gutter as it was, not panic.
#[test]
fn output_that_is_not_json_leaves_no_comments() {
    assert!(parse_line_comments(b"gh: not authenticated").is_empty());
    assert!(parse_line_comments(b"").is_empty());
    assert!(parse_line_comments(br#"{"message":"Not Found"}"#).is_empty());
}

#[test]
fn conversation_on_a_pull_request_is_counted() {
    let out = br#"{"comments":[{"body":"one"},{"body":"two"}],"reviews":[]}"#;
    let review = parse_review(out).unwrap();
    assert_eq!(review.comments, 2);
    assert!(!review.changes_requested);
}

#[test]
fn a_request_for_changes_blocks() {
    let out = br#"{"comments":[],"reviews":[
        {"author":{"login":"ales"},"state":"CHANGES_REQUESTED","body":""}
    ]}"#;
    assert!(parse_review(out).unwrap().changes_requested);
}

/// The one that would otherwise rot: GitHub keeps every review, so a block
/// the same person later lifted must not stay on the row forever.
#[test]
fn a_block_the_reviewer_later_lifted_is_gone() {
    let out = br#"{"comments":[],"reviews":[
        {"author":{"login":"ales"},"state":"CHANGES_REQUESTED","body":""},
        {"author":{"login":"ales"},"state":"APPROVED","body":""}
    ]}"#;
    assert!(!parse_review(out).unwrap().changes_requested);
}

/// One person approving does not speak for another who is still blocking.
#[test]
fn another_reviewers_approval_does_not_lift_a_block() {
    let out = br#"{"comments":[],"reviews":[
        {"author":{"login":"ales"},"state":"CHANGES_REQUESTED","body":""},
        {"author":{"login":"someone"},"state":"APPROVED","body":""}
    ]}"#;
    assert!(parse_review(out).unwrap().changes_requested);
}

/// A plain comment is not a verdict and must not clear a standing block.
#[test]
fn a_later_comment_does_not_clear_a_request_for_changes() {
    let out = br#"{"comments":[],"reviews":[
        {"author":{"login":"ales"},"state":"CHANGES_REQUESTED","body":""},
        {"author":{"login":"ales"},"state":"COMMENTED","body":"still looking"}
    ]}"#;
    let review = parse_review(out).unwrap();
    assert!(review.changes_requested);
    // The commented review carried a body, so it is something said.
    assert_eq!(review.comments, 1);
}

#[test]
fn a_review_that_carries_its_objection_in_the_body_is_something_said() {
    // Otherwise this reads as blocked with nothing said about why.
    let out = br#"{"comments":[],"reviews":[
        {"author":{"login":"ales"},"state":"CHANGES_REQUESTED","body":"the bound is wrong"}
    ]}"#;
    let review = parse_review(out).unwrap();
    assert_eq!(review.comments, 1);
    assert!(review.changes_requested);
}

#[test]
fn an_approval_with_nothing_written_says_nothing() {
    let out = br#"{"comments":[],"reviews":[
        {"author":{"login":"ales"},"state":"APPROVED","body":""}
    ]}"#;
    let review = parse_review(out).unwrap();
    assert_eq!(review.comments, 0);
    assert!(!review.is_pending());
}

#[test]
fn a_branch_with_no_pull_request_answers_nothing_rather_than_zero() {
    // What `gh pr view` writes when the branch has no pull request: it
    // fails, so `gh` returns None and this is never reached — but a future
    // `gh` printing prose instead must not be read as an empty review.
    assert_eq!(parse_review(b"no pull requests found"), None);
    assert_eq!(parse_review(b""), None);
}

#[test]
fn no_open_pull_requests_is_a_fact_not_an_absence() {
    // `Some(0)` and `None` mean different things: one is "none open", the
    // other is "nobody asked".
    assert_eq!(parse_pr_count(b"[]"), Some(0));
    assert_eq!(parse_pr_count(b"gh: not authenticated"), None);
}

#[test]
fn a_run_that_timed_out_is_neutral_not_failed() {
    let out = br#"[{"status":"completed","conclusion":"timed_out"}]"#;
    assert_eq!(parse_runs(out), Ci::Neutral);
    let out = br#"[{"status":"completed","conclusion":"startup_failure"}]"#;
    assert_eq!(parse_runs(out), Ci::Failed);
}

#[test]
fn verdicts_that_name_nobody_do_not_lift_each_other() {
    let out = br#"{"comments":[],"reviews":[
        {"state":"CHANGES_REQUESTED","body":""},
        {"state":"APPROVED","body":""}]}"#;
    assert_eq!(
        parse_review(out),
        Some(Review {
            comments: 0,
            changes_requested: true
        })
    );
    let out = br#"{"comments":[],"reviews":[
        {"state":"CHANGES_REQUESTED","author":{"login":"ada"}},
        {"state":"APPROVED"}]}"#;
    assert!(parse_review(out).unwrap().changes_requested);
}

#[test]
fn every_call_is_made_as_it_should_be() {
    let words = |call: Call| call.arguments().join(" ");
    assert_eq!(
        words(Call::Runs {
            branch: "fix/it".to_string()
        }),
        "run list --branch fix/it --limit 1 --json status,conclusion,databaseId"
    );
    assert_eq!(words(Call::Jobs { run: 42 }), "run view 42 --json jobs");
    assert_eq!(
        words(Call::Open),
        "pr list --state open --limit 100 --json number"
    );
    assert_eq!(words(Call::Review), "pr view --json comments,reviews");
    assert_eq!(words(Call::Number), "pr view --json number");
    assert_eq!(
        words(Call::Comments { number: 7 }),
        "api --paginate repos/{owner}/{repo}/pulls/7/comments"
    );
}

#[test]
fn runs_are_asked_for_only_on_a_branch() {
    assert_eq!(
        runs_call(&Ok(b"main\n".to_vec())),
        Some(Call::Runs {
            branch: "main".to_string()
        })
    );
    assert_eq!(runs_call(&Ok(b"\n".to_vec())), None);
    assert_eq!(runs_call(&Err(GitError::NotARepository)), None);
}
