//! Reading what GitHub says, as the `gh` binary prints it.
//!
//! `gh` rather than the REST API directly, for one reason: authentication.
//! Anyone who works with GitHub from a terminal has `gh auth login` behind
//! them, and its token lives in a keyring or a config file that this has no
//! business reading.
//!
//! Everything degrades to nothing known. `gh` missing, `gh` unauthenticated,
//! the network down, the repository private to someone else, the JSON shaped
//! differently by a future release — each of those produces a status with no
//! marker, and the list looks as it would without any of this.

use vstd::prelude::*;
use vstd::string::*;

use crate::bytes::{decode, lossy_text};
use crate::document::{
    document, documents, list_at, member, number_at, read_document, read_documents, text_at, Json,
};
use crate::forge::{comment_views, Ci, CommentView, ForgeStatus, PrComment, Review, Tests};
use crate::git::run::GitError;
use crate::git::status::{answer_text, trimmed_answer};
use crate::text::{
    ascii_lower, chars_of, contains, decimal, decimal_of, glue, has_text, same, texts,
    to_ascii_lower, trim, trimmed,
};

pub mod said;

verus! {

/// Whether a status says that a run has not finished.
pub open spec fn is_running(status: Seq<char>) -> bool {
    ||| status == "in_progress"@
    ||| status == "queued"@
    ||| status == "requested"@
    ||| status == "waiting"@
    ||| status == "pending"@
}

/// What a conclusion says. One that is not known here says nothing about the
/// code: guessing a failure would send someone hunting a bug that CI never
/// reported.
pub open spec fn concluded(conclusion: Seq<char>) -> Ci {
    if conclusion == "success"@ {
        Ci::Passed
    } else if conclusion == "failure"@ || conclusion == "startup_failure"@ {
        Ci::Failed
    } else if conclusion == "cancelled"@ || conclusion == "skipped"@ || conclusion == "timed_out"@
        || conclusion == "neutral"@ || conclusion == "stale"@ || conclusion == "action_required"@ {
        Ci::Neutral
    } else {
        Ci::Unknown
    }
}

/// What the first run of a list says: that it is still going, or how it ended.
/// A list without runs says nothing, and so does what is no list.
pub open spec fn runs_say(doc: Json) -> Ci {
    match doc {
        Json::List(runs) => if runs@.len() == 0 {
            Ci::Unknown
        } else if is_running(text_at(runs@[0], "status"@)) {
            Ci::Running
        } else {
            concluded(text_at(runs@[0], "conclusion"@))
        },
        _ => Ci::Unknown,
    }
}

fn still_running(status: &str) -> (r: bool)
    ensures
        r == is_running(status@),
{
    same(status, "in_progress") || same(status, "queued") || same(status, "requested") || same(
        status,
        "waiting",
    ) || same(status, "pending")
}

fn read_conclusion(conclusion: &str) -> (r: Ci)
    ensures
        r == concluded(conclusion@),
{
    if same(conclusion, "success") {
        Ci::Passed
    } else if same(conclusion, "failure") || same(conclusion, "startup_failure") {
        Ci::Failed
    } else if same(conclusion, "cancelled") || same(conclusion, "skipped") || same(
        conclusion,
        "timed_out",
    ) || same(conclusion, "neutral") || same(conclusion, "stale") || same(conclusion, "action_required") {
        Ci::Neutral
    } else {
        Ci::Unknown
    }
}

/// How the newest run in a list of runs ended.
pub fn run_state(doc: &Json) -> (r: Ci)
    ensures
        r == runs_say(*doc),
{
    match doc {
        Json::List(runs) => {
            if runs.len() == 0 {
                return Ci::Unknown;
            }
            let status = runs[0].get_text("status");
            // A run that has not finished has a null conclusion, so status is
            // the only thing that can say it is still going.
            if still_running(status.as_str()) {
                return Ci::Running;
            }
            let conclusion = runs[0].get_text("conclusion");
            read_conclusion(conclusion.as_str())
        },
        _ => Ci::Unknown,
    }
}

/// Read a CI state out of what `gh run list --json status,conclusion` printed.
///
/// An empty list is a repository with no runs, which is `Unknown` rather than a
/// problem — most repositories have no CI at all.
pub fn parse_runs(out: &[u8]) -> (r: Ci)
    ensures
        r == (match document(out@) {
            Some(doc) => runs_say(doc),
            None => Ci::Unknown,
        }),
{
    match read_document(out) {
        Some(doc) => run_state(&doc),
        None => Ci::Unknown,
    }
}

/// The id of the first run of a list, if it has one.
pub open spec fn run_id_in(doc: Json) -> Option<u64> {
    match doc {
        Json::List(runs) => if runs@.len() == 0 {
            None
        } else {
            number_at(runs@[0], "databaseId"@)
        },
        _ => None,
    }
}

/// The id of the newest run in a list of runs.
pub fn run_id(doc: &Json) -> (r: Option<u64>)
    ensures
        r == run_id_in(*doc),
{
    match doc {
        Json::List(runs) => if runs.len() == 0 {
            None
        } else {
            runs[0].get_number("databaseId")
        },
        _ => None,
    }
}

/// The id of the run [`parse_runs`] read, for asking about its jobs.
pub fn parse_run_id(out: &[u8]) -> (r: Option<u64>)
    ensures
        r == (match document(out@) {
            Some(doc) => run_id_in(doc),
            None => None,
        }),
{
    match read_document(out) {
        Some(doc) => run_id(&doc),
        None => None,
    }
}

/// Whether a step's name means "the tests".
///
/// Matched in capitals or not and anywhere in the name, because what a workflow
/// calls the step is up to whoever wrote it: `Test`, `Run tests`, `cargo test`
/// and `unit-tests` are all the same thing to a reader.
///
/// Deliberately narrow. A step this does not recognise leaves the tests alone
/// rather than being guessed at — reporting a lint failure as a test failure
/// would send someone to the wrong file.
pub open spec fn names_tests(name: Seq<char>) -> bool {
    let lower = name.map_values(|c: char| ascii_lower(c));
    ||| has_text(lower, "test"@)
    ||| has_text(lower, "spec"@)
    ||| has_text(lower, "pytest"@)
    ||| has_text(lower, "jest"@)
    ||| has_text(lower, "vitest"@)
}

/// Whether a step failed and says what it is called.
pub open spec fn step_failed(step: Json) -> bool {
    text_at(step, "conclusion"@) == "failure"@ && (member(step, "name"@) matches Some(Json::Text(_)))
}

/// Whether a step counts as failed, where only those that mean "the tests"
/// count or all of them do.
pub open spec fn counts_failed(step: Json, at_tests: bool) -> bool {
    step_failed(step) && (at_tests ==> names_tests(text_at(step, "name"@)))
}

/// Whether any of the steps counts as failed.
pub open spec fn any_step_failed(steps: Seq<Json>, at_tests: bool) -> bool {
    exists|k: int| 0 <= k < steps.len() && counts_failed(#[trigger] steps[k], at_tests)
}

/// Whether a step of a job failed, or a step that means "the tests" did.
pub open spec fn job_failed(job: Json, at_tests: bool) -> bool {
    match list_at(job, "steps"@) {
        Some(steps) => any_step_failed(steps, at_tests),
        None => false,
    }
}

/// Whether a step of any job failed, or a step that means "the tests" did.
pub open spec fn any_failed(jobs: Seq<Json>, at_tests: bool) -> bool {
    exists|j: int| 0 <= j < jobs.len() && job_failed(#[trigger] jobs[j], at_tests)
}

/// What a run's jobs say about its tests.
pub open spec fn jobs_say(doc: Json) -> Tests {
    match list_at(doc, "jobs"@) {
        Some(jobs) => if any_failed(jobs, true) {
            Tests::Failed
        } else if any_failed(jobs, false) {
            Tests::Passed
        } else {
            Tests::Unknown
        },
        None => Tests::Unknown,
    }
}

fn is_test_name(name: &str) -> (r: bool)
    ensures
        r == names_tests(name@),
{
    let cs = chars_of(name);
    let ghost all = name@.map_values(|c: char| ascii_lower(c));
    let mut lower = String::new();
    for i in 0..cs.len()
        invariant
            cs@ == name@,
            all == name@.map_values(|c: char| ascii_lower(c)),
            lower@ =~= all.take(i as int),
    {
        lower.push(to_ascii_lower(cs[i]));
    }
    assert(all.take(all.len() as int) =~= all);
    let s = lower.as_str();
    contains(s, "test") || contains(s, "spec") || contains(s, "pytest") || contains(s, "jest")
        || contains(s, "vitest")
}

fn failed_step(step: &Json, at_tests: bool) -> (r: bool)
    ensures
        r == counts_failed(*step, at_tests),
{
    let conclusion = step.get_text("conclusion");
    if !same(conclusion.as_str(), "failure") {
        return false;
    }
    match step.get("name") {
        Some(Json::Text(name)) => !at_tests || is_test_name(name.as_str()),
        _ => false,
    }
}

fn some_step_failed(steps: &Vec<Json>, at_tests: bool) -> (r: bool)
    ensures
        r == any_step_failed(steps@, at_tests),
{
    for k in 0..steps.len()
        invariant
            forall|i: int| 0 <= i < k ==> !counts_failed(#[trigger] steps@[i], at_tests),
    {
        if failed_step(&steps[k], at_tests) {
            return true;
        }
    }
    false
}

fn has_failed(job: &Json, at_tests: bool) -> (r: bool)
    ensures
        r == job_failed(*job, at_tests),
{
    match job.get_list("steps") {
        Some(steps) => some_step_failed(steps, at_tests),
        None => false,
    }
}

fn some_failed(jobs: &Vec<Json>, at_tests: bool) -> (r: bool)
    ensures
        r == any_failed(jobs@, at_tests),
{
    for j in 0..jobs.len()
        invariant
            forall|i: int| 0 <= i < j ==> !job_failed(#[trigger] jobs@[i], at_tests),
    {
        if has_failed(&jobs[j], at_tests) {
            return true;
        }
    }
    false
}

/// Whether the tests are what failed in a run that failed.
pub fn test_state(doc: &Json) -> (r: Tests)
    ensures
        r == jobs_say(*doc),
{
    match doc.get_list("jobs") {
        Some(jobs) => {
            if some_failed(jobs, true) {
                Tests::Failed
            } else if some_failed(jobs, false) {
                // Something else broke and the tests are not it. Saying so is
                // worth as much as the failure: it tells the reader the code is
                // probably fine.
                Tests::Passed
            } else {
                // A failed run with no failed step: cancelled mid-flight, or a
                // shape this does not understand.
                Tests::Unknown
            }
        },
        None => Tests::Unknown,
    }
}

/// Read a test verdict out of what `gh run view --json jobs` printed.
///
/// A failed step whose name looks like a test run means the tests failed. If
/// every failed step is something else — a formatter, a linter, a build — the
/// tests are reported as passing, because CI got far enough to run them and
/// they did not stop it.
///
/// A run whose failures cannot be classified at all stays `Unknown`. Guessing
/// would put `tests✗` on a row whose tests were never the problem.
pub fn parse_test_result(out: &[u8]) -> (r: Tests)
    ensures
        r == (match document(out@) {
            Some(doc) => jobs_say(doc),
            None => Tests::Unknown,
        }),
{
    match read_document(out) {
        Some(doc) => test_state(&doc),
        None => Tests::Unknown,
    }
}

/// Count the entries of a list.
pub open spec fn pr_count_in(doc: Json) -> Option<usize> {
    match doc {
        Json::List(items) => Some(items.len()),
        _ => None,
    }
}

/// Count the entries of a list of pull requests.
pub fn pr_count(doc: &Json) -> (r: Option<usize>)
    ensures
        r == pr_count_in(*doc),
{
    match doc {
        Json::List(items) => Some(items.len()),
        _ => None,
    }
}

/// Count the entries `gh pr list --json number` printed.
pub fn parse_pr_count(out: &[u8]) -> (r: Option<usize>)
    ensures
        r == (match document(out@) {
            Some(doc) => pr_count_in(doc),
            None => None,
        }),
{
    match read_document(out) {
        Some(doc) => pr_count(&doc),
        None => None,
    }
}

/// The number of the pull request for the checked-out branch, from what
/// `gh pr view --json number` printed.
pub fn pull_request_number(out: &[u8]) -> (r: Option<u64>)
    ensures
        r == (match document(out@) {
            Some(doc) => number_at(doc, "number"@),
            None => None,
        }),
{
    match read_document(out) {
        Some(doc) => doc.get_number("number"),
        None => None,
    }
}

/// Whether a review carries a body.
pub open spec fn has_body(review: Json) -> bool {
    trimmed(text_at(review, "body"@)).len() > 0
}

/// How many of the reviews carry a body.
pub open spec fn bodies(reviews: Seq<Json>) -> nat
    decreases reviews.len(),
{
    if reviews.len() == 0 {
        0
    } else {
        bodies(reviews.drop_last()) + if has_body(reviews.last()) {
            1nat
        } else {
            0nat
        }
    }
}

/// Whether a review is a verdict. A `COMMENTED` review says nothing about
/// whether the author is blocked.
pub open spec fn is_verdict(review: Json) -> bool {
    text_at(review, "state"@) == "CHANGES_REQUESTED"@ || text_at(review, "state"@) == "APPROVED"@
}

/// Who wrote a review, or nothing.
pub open spec fn commenter(review: Json) -> Seq<char> {
    match member(review, "author"@) {
        Some(author) => text_at(author, "login"@),
        None => Seq::empty(),
    }
}

/// Whether two reviews are known to be one commenter's. Reviews that name nobody
/// may be anybody's.
pub open spec fn same_commenter(a: Json, b: Json) -> bool {
    commenter(a).len() > 0 && commenter(a) == commenter(b)
}

/// Whether the `i`-th review is the last verdict of its commenter. One that names
/// nobody is a last word of its own.
pub open spec fn last_word(reviews: Seq<Json>, i: int) -> bool {
    &&& is_verdict(reviews[i])
    &&& forall|j: int|
        i < j < reviews.len() && is_verdict(#[trigger] reviews[j]) ==> !same_commenter(
            reviews[j],
            reviews[i],
        )
}

/// Whether a commenter asked for changes and has not approved since. Only the
/// last verdict of each commenter counts; the reviews come oldest first.
pub open spec fn blocked(reviews: Seq<Json>) -> bool {
    exists|i: int|
        0 <= i < reviews.len() && text_at(#[trigger] reviews[i], "state"@) == "CHANGES_REQUESTED"@
            && last_word(reviews, i)
}

/// The items of a list under a key, or none.
pub open spec fn items_at(doc: Json, key: Seq<char>) -> Seq<Json> {
    match list_at(doc, key) {
        Some(items) => items,
        None => Seq::empty(),
    }
}

/// What a pull request's conversation and reviews come to: reviews that carry a
/// body are counted as comments too. A count beyond what a `usize` holds is the
/// largest one.
pub open spec fn review_in(doc: Json) -> Review {
    let said = items_at(doc, "comments"@).len() + bodies(items_at(doc, "reviews"@));
    Review {
        comments: if said <= usize::MAX {
            said as usize
        } else {
            usize::MAX
        },
        changes_requested: blocked(items_at(doc, "reviews"@)),
    }
}

fn verdict(review: &Json) -> (r: bool)
    ensures
        r == is_verdict(*review),
{
    let state = review.get_text("state");
    same(state.as_str(), "CHANGES_REQUESTED") || same(state.as_str(), "APPROVED")
}

fn login_of(review: &Json) -> (r: String)
    ensures
        r@ == commenter(*review),
{
    match review.get("author") {
        Some(author) => author.get_text("login"),
        None => String::new(),
    }
}

fn is_last_word(reviews: &Vec<Json>, i: usize) -> (r: bool)
    requires
        i < reviews@.len(),
        is_verdict(reviews@[i as int]),
    ensures
        r == last_word(reviews@, i as int),
{
    let who = login_of(&reviews[i]);
    if who.is_empty() {
        return true;
    }
    for j in i + 1..reviews.len()
        invariant
            i < reviews@.len(),
            who@ == commenter(reviews@[i as int]),
            who@.len() > 0,
            i < j,
            forall|k: int|
                i < k < j && is_verdict(#[trigger] reviews@[k]) ==> commenter(reviews@[k]) != who@,
    {
        if verdict(&reviews[j]) && login_of(&reviews[j]) == who {
            return false;
        }
    }
    true
}

fn is_blocked(reviews: &Vec<Json>) -> (r: bool)
    ensures
        r == blocked(reviews@),
{
    for i in 0..reviews.len()
        invariant
            forall|k: int|
                0 <= k < i ==> !(text_at(#[trigger] reviews@[k], "state"@) == "CHANGES_REQUESTED"@
                    && last_word(reviews@, k)),
    {
        let state = reviews[i].get_text("state");
        if same(state.as_str(), "CHANGES_REQUESTED") && is_last_word(reviews, i) {
            return true;
        }
    }
    false
}

fn count_bodies(reviews: &Vec<Json>) -> (r: usize)
    ensures
        r == bodies(reviews@),
{
    let mut n: usize = 0;
    assert(reviews@.take(0) =~= Seq::<Json>::empty());
    for i in 0..reviews.len()
        invariant
            n == bodies(reviews@.take(i as int)),
            n <= i,
    {
        proof {
            assert(reviews@.take(i + 1).drop_last() =~= reviews@.take(i as int));
            assert(reviews@.take(i + 1).last() == reviews@[i as int]);
        }
        let body = reviews[i].get_text("body");
        if !trim(body.as_str()).is_empty() {
            n += 1;
        }
    }
    assert(reviews@.take(reviews@.len() as int) =~= reviews@);
    n
}

/// What a pull request's conversation and reviews come to.
pub fn review_state(doc: &Json) -> (r: Review)
    ensures
        r == review_in(*doc),
{
    let comments: usize = match doc.get_list("comments") {
        Some(items) => items.len(),
        None => 0,
    };
    match doc.get_list("reviews") {
        Some(reviews) => Review {
            comments: comments.saturating_add(count_bodies(reviews)),
            changes_requested: is_blocked(reviews),
        },
        None => Review { comments, changes_requested: false },
    }
}

/// Read a review state out of what `gh pr view --json comments,reviews` printed.
///
/// Only the last verdict from each commenter counts. GitHub keeps every review
/// ever submitted, so someone who requested changes on Monday and approved on
/// Friday leaves both in the list; taking the presence of a `CHANGES_REQUESTED`
/// at face value would keep a resolved block on the row forever. Reviews without
/// an author do not share one slot: their verdicts would overwrite each other.
///
/// Reviews that carry a body are counted as comments too — a commenter who wrote
/// their objection in the review itself said something, and dropping it would
/// report a blocked pull request with nothing apparently said about it.
pub fn parse_review(out: &[u8]) -> (r: Option<Review>)
    ensures
        r == (match document(out@) {
            Some(doc) => Some(review_in(doc)),
            None => None,
        }),
{
    match read_document(out) {
        Some(doc) => Some(review_state(&doc)),
        None => None,
    }
}

/// The remark that a comment on a line makes, if it still points at a line of
/// the current diff and says anything.
///
/// A comment on code that has since been rewritten comes without a line;
/// drawing it against whatever now occupies that position would attach
/// somebody's words to code they never saw.
pub open spec fn remark_in(c: Json) -> Option<CommentView> {
    let path = text_at(c, "path"@);
    let body = trimmed(text_at(c, "body"@));
    match number_at(c, "line"@) {
        Some(line) => if line <= u32::MAX && path.len() > 0 && body.len() > 0 {
            Some(
                CommentView {
                    file: path,
                    line: line as u32,
                    author: match member(c, "user"@) {
                        Some(user) => text_at(user, "login"@),
                        None => Seq::empty(),
                    },
                    body,
                },
            )
        } else {
            None
        },
        None => None,
    }
}

/// The remarks that the comments of a page make.
pub open spec fn page_remarks(page: Seq<Json>) -> Seq<CommentView>
    decreases page.len(),
{
    if page.len() == 0 {
        Seq::empty()
    } else {
        match remark_in(page.last()) {
            Some(c) => page_remarks(page.drop_last()).push(c),
            None => page_remarks(page.drop_last()),
        }
    }
}

/// The remarks of all pages. What is no list is no page.
pub open spec fn remarks_in(pages: Seq<Json>) -> Seq<CommentView>
    decreases pages.len(),
{
    if pages.len() == 0 {
        Seq::empty()
    } else {
        let before = remarks_in(pages.drop_last());
        match pages.last() {
            Json::List(page) => before + page_remarks(page@),
            _ => before,
        }
    }
}

fn read_remark(c: &Json) -> (r: Option<PrComment>)
    ensures
        match r {
            Some(comment) => remark_in(*c) == Some(comment@),
            None => remark_in(*c) is None,
        },
{
    let line: u64 = match c.get_number("line") {
        Some(n) => n,
        None => {
            return None;
        },
    };
    let path = c.get_text("path");
    let words = c.get_text("body");
    let body = trim(words.as_str());
    if line > u32::MAX as u64 || path.is_empty() || body.is_empty() {
        return None;
    }
    let author = match c.get("user") {
        Some(user) => user.get_text("login"),
        None => String::new(),
    };
    Some(PrComment { file: path, line: line as u32, author, body })
}

fn read_page(page: &Vec<Json>, out: &mut Vec<PrComment>)
    ensures
        comment_views(final(out)@) == comment_views(old(out)@) + page_remarks(page@),
{
    let ghost start = comment_views(out@);
    assert(page@.take(0) =~= Seq::<Json>::empty());
    for i in 0..page.len()
        invariant
            comment_views(out@) =~= start + page_remarks(page@.take(i as int)),
    {
        proof {
            assert(page@.take(i + 1).drop_last() =~= page@.take(i as int));
            assert(page@.take(i + 1).last() == page@[i as int]);
        }
        let ghost before = comment_views(out@);
        if let Some(comment) = read_remark(&page[i]) {
            out.push(comment);
            assert(comment_views(out@) =~= before.push(comment@));
        }
    }
    assert(page@.take(page@.len() as int) =~= page@);
}

/// The remarks of all pages of a review.
pub fn line_comments(pages: &Vec<Json>) -> (r: Vec<PrComment>)
    ensures
        comment_views(r@) == remarks_in(pages@),
{
    let mut out: Vec<PrComment> = Vec::new();
    assert(pages@.take(0) =~= Seq::<Json>::empty());
    assert(comment_views(out@) =~= Seq::<CommentView>::empty());
    for i in 0..pages.len()
        invariant
            comment_views(out@) =~= remarks_in(pages@.take(i as int)),
    {
        proof {
            assert(pages@.take(i + 1).drop_last() =~= pages@.take(i as int));
            assert(pages@.take(i + 1).last() == pages@[i as int]);
        }
        if let Json::List(page) = &pages[i] {
            read_page(page, &mut out);
        }
    }
    assert(pages@.take(pages@.len() as int) =~= pages@);
    out
}

/// Read line comments out of what the pull request comments endpoint printed.
///
/// Only comments that still point at a line of the current diff are kept.
/// `--paginate` concatenates the pages as separate JSON arrays rather than one,
/// so the parse walks whatever top-level arrays it finds instead of expecting a
/// single document.
pub fn parse_line_comments(out: &[u8]) -> (r: Vec<PrComment>)
    ensures
        comment_views(r@) == remarks_in(documents(lossy_text(out@))),
{
    let text = decode(out);
    let pages = read_documents(text.as_str());
    line_comments(&pages)
}

/// A question to `gh`, put from inside the repository.
#[derive(Debug, PartialEq, Eq)]
pub enum Call {
    /// The newest run on a branch. Scoped to the branch rather than the
    /// repository: a reader looking at their own worktree wants to know whether
    /// *their* work is green, and the newest run on `main` says nothing about
    /// that.
    Runs { branch: String },
    /// The jobs of a run. Its jobs rather than its log: the job and step names
    /// are already structured.
    Jobs { run: u64 },
    /// The pull requests that are open.
    Open,
    /// What was said on the pull request of the branch that is checked out, and
    /// the verdicts on it.
    Review,
    /// The number of that pull request.
    Number,
    /// What was said on the lines of a pull request. All pages of it: a remark
    /// silently missing from the diff is worse than the call taking longer.
    Comments { number: u64 },
}

/// A question as the words of a command line, after `gh`.
pub open spec fn words_for(call: Call) -> Seq<Seq<char>> {
    match call {
        Call::Runs { branch } => seq![
            "run"@,
            "list"@,
            "--branch"@,
            branch@,
            "--limit"@,
            "1"@,
            "--json"@,
            "status,conclusion,databaseId"@,
        ],
        Call::Jobs { run } => seq!["run"@, "view"@, decimal_of(run as nat), "--json"@, "jobs"@],
        Call::Open => seq![
            "pr"@,
            "list"@,
            "--state"@,
            "open"@,
            "--limit"@,
            "100"@,
            "--json"@,
            "number"@,
        ],
        Call::Review => seq!["pr"@, "view"@, "--json"@, "comments,reviews"@],
        Call::Number => seq!["pr"@, "view"@, "--json"@, "number"@],
        Call::Comments { number } => seq![
            "api"@,
            "--paginate"@,
            "repos/{owner}/{repo}/pulls/"@ + decimal_of(number as nat) + "/comments"@,
        ],
    }
}

impl Call {
    /// The question as the words of a command line, after `gh`.
    pub fn arguments(&self) -> (r: Vec<String>)
        ensures
            texts(r@) == words_for(*self),
    {
        let r = match self {
            Call::Runs { branch } => vec![
                "run".to_owned(),
                "list".to_owned(),
                "--branch".to_owned(),
                branch.clone(),
                "--limit".to_owned(),
                "1".to_owned(),
                "--json".to_owned(),
                "status,conclusion,databaseId".to_owned(),
            ],
            Call::Jobs { run } => vec![
                "run".to_owned(),
                "view".to_owned(),
                decimal(*run),
                "--json".to_owned(),
                "jobs".to_owned(),
            ],
            Call::Open => vec![
                "pr".to_owned(),
                "list".to_owned(),
                "--state".to_owned(),
                "open".to_owned(),
                "--limit".to_owned(),
                "100".to_owned(),
                "--json".to_owned(),
                "number".to_owned(),
            ],
            Call::Review => vec![
                "pr".to_owned(),
                "view".to_owned(),
                "--json".to_owned(),
                "comments,reviews".to_owned(),
            ],
            Call::Number => vec![
                "pr".to_owned(),
                "view".to_owned(),
                "--json".to_owned(),
                "number".to_owned(),
            ],
            Call::Comments { number } => vec![
                "api".to_owned(),
                "--paginate".to_owned(),
                glue("repos/{owner}/{repo}/pulls/", decimal(*number).as_str(), "/comments"),
            ],
        };
        assert(texts(r@) =~= words_for(*self));
        r
    }
}

/// The question about runs, given what git answered when asked for the branch.
///
/// A detached HEAD, or a repository with no commits yet, has no branch for
/// GitHub to have run anything against, and raises none.
pub fn runs_call(symbolic: &Result<Vec<u8>, GitError>) -> (r: Option<Call>)
    ensures
        match trimmed_answer(*symbolic) {
            Some(name) => r matches Some(Call::Runs { branch }) && branch@ == name,
            None => r is None,
        },
{
    match answer_text(symbolic) {
        Some(branch) => Some(Call::Runs { branch }),
        None => None,
    }
}

/// What `gh` printed about one repository; `None` for each call that was not
/// made or went wrong.
pub struct Answers {
    /// What [`Call::Runs`] printed.
    pub runs: Option<Vec<u8>>,
    /// What [`Call::Jobs`] printed.
    pub jobs: Option<Vec<u8>>,
    /// What [`Call::Open`] printed.
    pub open: Option<Vec<u8>>,
    /// What [`Call::Review`] printed.
    pub review: Option<Vec<u8>>,
    /// What [`Call::Comments`] printed.
    pub comments: Option<Vec<u8>>,
}

/// What a call's output says of CI.
pub open spec fn ci_of(out: Option<Vec<u8>>) -> Ci {
    match out {
        Some(bytes) => match document(bytes@) {
            Some(doc) => runs_say(doc),
            None => Ci::Unknown,
        },
        None => Ci::Unknown,
    }
}

/// The run whose jobs are worth asking for, from what `gh run list` printed.
///
/// Only a failed run's are. A green run has nothing to attribute, and a run
/// still going has not decided yet — asking anyway would spend a request per
/// repository per round to learn that everything is fine.
pub fn run_to_ask(runs: &Option<Vec<u8>>) -> (r: Option<u64>)
    ensures
        r == (if ci_of(*runs) == Ci::Failed {
            match document(runs->0@) {
                Some(doc) => run_id_in(doc),
                None => None,
            }
        } else {
            None
        }),
{
    match runs {
        Some(bytes) => match parse_runs(bytes.as_slice()) {
            Ci::Failed => parse_run_id(bytes.as_slice()),
            _ => None,
        },
        None => None,
    }
}

/// What GitHub says about one repository.
///
/// Separate calls rather than one: runs, pull requests and review are separate
/// endpoints in `gh`, and a failure in any of them does not cost the others. A
/// repository with Actions disabled still has pull requests worth counting.
pub fn status_of(answers: &Answers) -> (r: ForgeStatus)
    ensures
        r.ci == ci_of(answers.runs),
        r.tests == (if ci_of(answers.runs) == Ci::Failed && answers.jobs is Some {
            match document(answers.jobs->0@) {
                Some(doc) => jobs_say(doc),
                None => Tests::Unknown,
            }
        } else {
            Tests::Unknown
        }),
        r.open_prs == (match answers.open {
            Some(out) => match document(out@) {
                Some(doc) => pr_count_in(doc),
                None => None,
            },
            None => None,
        }),
        r.review == (match answers.review {
            Some(out) => match document(out@) {
                Some(doc) => Some(review_in(doc)),
                None => None,
            },
            None => None,
        }),
        comment_views(r.comments@) == (match answers.comments {
            Some(out) => remarks_in(documents(lossy_text(out@))),
            None => Seq::empty(),
        }),
{
    let ci = match &answers.runs {
        Some(out) => parse_runs(out.as_slice()),
        None => Ci::Unknown,
    };
    let tests = match (ci, &answers.jobs) {
        (Ci::Failed, Some(out)) => parse_test_result(out.as_slice()),
        _ => Tests::Unknown,
    };
    let open_prs = match &answers.open {
        Some(out) => parse_pr_count(out.as_slice()),
        None => None,
    };
    let review = match &answers.review {
        Some(out) => parse_review(out.as_slice()),
        None => None,
    };
    let comments = match &answers.comments {
        Some(out) => parse_line_comments(out.as_slice()),
        None => Vec::new(),
    };
    assert(answers.comments is None ==> comment_views(comments@) =~= Seq::<CommentView>::empty());
    ForgeStatus { ci, open_prs, review, comments, tests }
}

/// A later review that is no verdict changes nothing: it neither blocks nor
/// clears a standing request for changes.
pub proof fn comments_do_not_clear_a_block(reviews: Seq<Json>, later: Json)
    requires
        !is_verdict(later),
    ensures
        blocked(reviews.push(later)) == blocked(reviews),
{
    let all = reviews.push(later);
    assert forall|i: int| 0 <= i < reviews.len() implies last_word(all, i) == last_word(
        reviews,
        i,
    ) by {
        assert(all[i] == reviews[i]);
        if last_word(reviews, i) {
            assert forall|j: int|
                i < j < all.len() && is_verdict(#[trigger] all[j]) implies !same_commenter(
                all[j],
                all[i],
            ) by {
                assert(all[j] == reviews[j]);
            }
        }
        if last_word(all, i) {
            assert forall|j: int|
                i < j < reviews.len() && is_verdict(#[trigger] reviews[j]) implies !same_commenter(
                reviews[j],
                reviews[i],
            ) by {
                assert(all[j] == reviews[j]);
            }
        }
    }
    if blocked(reviews) {
        let i = choose|i: int|
            0 <= i < reviews.len() && text_at(#[trigger] reviews[i], "state"@)
                == "CHANGES_REQUESTED"@ && last_word(reviews, i);
        assert(all[i] == reviews[i]);
    }
    if blocked(all) {
        let i = choose|i: int|
            0 <= i < all.len() && text_at(#[trigger] all[i], "state"@) == "CHANGES_REQUESTED"@
                && last_word(all, i);
        assert(i < reviews.len());
        assert(all[i] == reviews[i]);
    }
}

/// A commenter's approval lifts what they asked for and nothing else: after it a
/// pull request is blocked exactly where a review that is not known to be theirs
/// blocks it.
pub proof fn an_approval_lifts_only_its_own_block(reviews: Seq<Json>, approval: Json)
    requires
        text_at(approval, "state"@) == "APPROVED"@,
    ensures
        blocked(reviews.push(approval)) <==> exists|i: int|
            0 <= i < reviews.len() && text_at(#[trigger] reviews[i], "state"@)
                == "CHANGES_REQUESTED"@ && last_word(reviews, i) && !same_commenter(
                approval,
                reviews[i],
            ),
{
    reveal_strlit("APPROVED");
    reveal_strlit("CHANGES_REQUESTED");
    assert("APPROVED"@.len() != "CHANGES_REQUESTED"@.len());
    let all = reviews.push(approval);
    let n = reviews.len() as int;
    assert(all[n] == approval);
    assert forall|i: int| 0 <= i < n implies (last_word(all, i) <==> last_word(reviews, i)
        && !same_commenter(approval, reviews[i])) by {
        assert(all[i] == reviews[i]);
        if last_word(all, i) {
            assert(is_verdict(all[n]));
            assert forall|j: int|
                i < j < n && is_verdict(#[trigger] reviews[j]) implies !same_commenter(
                reviews[j],
                reviews[i],
            ) by {
                assert(all[j] == reviews[j]);
            }
        }
        if last_word(reviews, i) && !same_commenter(approval, reviews[i]) {
            assert forall|j: int|
                i < j < all.len() && is_verdict(#[trigger] all[j]) implies !same_commenter(
                all[j],
                all[i],
            ) by {
                if j < n {
                    assert(all[j] == reviews[j]);
                }
            }
        }
    }
    if blocked(all) {
        let i = choose|i: int|
            0 <= i < all.len() && text_at(#[trigger] all[i], "state"@) == "CHANGES_REQUESTED"@
                && last_word(all, i);
        assert(i < n);
        assert(all[i] == reviews[i]);
    }
    if exists|i: int|
        0 <= i < n && text_at(#[trigger] reviews[i], "state"@) == "CHANGES_REQUESTED"@
            && last_word(reviews, i) && !same_commenter(approval, reviews[i]) {
        let i = choose|i: int|
            0 <= i < n && text_at(#[trigger] reviews[i], "state"@) == "CHANGES_REQUESTED"@
                && last_word(reviews, i) && !same_commenter(approval, reviews[i]);
        assert(all[i] == reviews[i]);
    }
}

} // verus!
