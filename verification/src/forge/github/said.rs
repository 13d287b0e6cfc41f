//! What comes of what `gh` prints.

use vstd::prelude::*;
use vstd::string::*;

use crate::document::{list_at, member, number_at, text_at, Json};
use crate::forge::github::{
    any_failed, blocked, bodies, commenter, counts_failed, items_at, job_failed, jobs_say,
    last_word, names_tests, page_remarks, pr_count_in, remarks_in, review_in, run_id_in, runs_say,
    same_commenter,
};
use crate::forge::{Ci, CommentView, Tests};
use crate::text::reading::{blank, trimming_leaves_the_middle};
use crate::text::{ascii_lower, has_text, occurs_at, trimmed};

verus! {

/// Whether a comment on a line is worth showing: it still points at a line of the
/// diff, it says of which file, and it says anything.
pub open spec fn usable(c: Json) -> bool {
    &&& number_at(c, "line"@) matches Some(n) && n <= 0xffff_ffff
    &&& text_at(c, "path"@).len() > 0
    &&& !blank(text_at(c, "body"@))
}

/// Whether a remark is what a comment says: on its line of its file, in its
/// commenter's name, without the white space around it.
pub open spec fn passes_on(r: CommentView, c: Json) -> bool {
    &&& r.file == text_at(c, "path"@)
    &&& number_at(c, "line"@) == Some(r.line as u64)
    &&& r.body == trimmed(text_at(c, "body"@))
    &&& r.author == (match member(c, "user"@) {
        Some(user) => text_at(user, "login"@),
        None => Seq::empty(),
    })
}

/// Every comment of a page that is worth showing is passed on, and no other: a page
/// without comments gives none, a single comment itself where it is worth showing,
/// and a page that is split anywhere what the two parts give, one after the other.
pub proof fn every_usable_comment_is_passed_on(a: Seq<Json>, b: Seq<Json>, c: Json)
    ensures
        page_remarks(Seq::empty()).len() == 0,
        usable(c) ==> page_remarks(seq![c]).len() == 1 && passes_on(page_remarks(seq![c])[0], c),
        !usable(c) ==> page_remarks(seq![c]).len() == 0,
        page_remarks(a + b) == page_remarks(a) + page_remarks(b),
    decreases b.len(),
{
    trimming_leaves_the_middle(text_at(c, "body"@));
    assert(seq![c].drop_last() =~= Seq::<Json>::empty());
    assert(page_remarks(seq![c].drop_last()) =~= Seq::<CommentView>::empty());
    assert(seq![c].last() == c);
    if b.len() == 0 {
        assert(a + b =~= a);
        assert(page_remarks(a + b) =~= page_remarks(a) + page_remarks(b));
    } else {
        assert((a + b).drop_last() =~= a + b.drop_last());
        assert((a + b).last() == b.last());
        every_usable_comment_is_passed_on(a, b.drop_last(), c);
        assert(page_remarks(a + b) =~= page_remarks(a) + page_remarks(b));
    }
}

/// The comments of all pages are passed on, page after page, and what is no page
/// gives none.
pub proof fn every_page_is_passed_on(a: Seq<Json>, b: Seq<Json>, page: Json)
    ensures
        remarks_in(Seq::empty()).len() == 0,
        page matches Json::List(items) ==> remarks_in(seq![page]) == page_remarks(items@),
        !(page is List) ==> remarks_in(seq![page]).len() == 0,
        remarks_in(a + b) == remarks_in(a) + remarks_in(b),
    decreases b.len(),
{
    assert(seq![page].drop_last() =~= Seq::<Json>::empty());
    assert(remarks_in(seq![page].drop_last()) =~= Seq::<CommentView>::empty());
    assert(seq![page].last() == page);
    if let Json::List(items) = page {
        assert(remarks_in(seq![page]) =~= page_remarks(items@));
    }
    if b.len() == 0 {
        assert(a + b =~= a);
        assert(remarks_in(a + b) =~= remarks_in(a) + remarks_in(b));
    } else {
        assert((a + b).drop_last() =~= a + b.drop_last());
        assert((a + b).last() == b.last());
        every_page_is_passed_on(a, b.drop_last(), page);
        assert(remarks_in(a + b) =~= remarks_in(a) + remarks_in(b));
    }
}

/// Whether a word says that a run has not finished.
pub open spec fn unfinished(status: Seq<char>) -> bool {
    ||| status == "in_progress"@
    ||| status == "queued"@
    ||| status == "requested"@
    ||| status == "waiting"@
    ||| status == "pending"@
}

/// The newest run decides, whatever the runs behind it: while it goes on CI is
/// running, whatever its conclusion, and once it has ended CI passed where it is
/// called a success, failed where it is called a failure, and did neither where it
/// was called off.
pub proof fn the_newest_run_decides(doc: Json, runs: Seq<Json>)
    requires
        doc matches Json::List(all) && all@ == runs,
        runs.len() > 0,
    ensures
        ({
            let ended = !unfinished(text_at(runs[0], "status"@));
            let conclusion = text_at(runs[0], "conclusion"@);
            &&& runs_say(doc) == Ci::Running <==> !ended
            &&& ended ==> (runs_say(doc) == Ci::Passed <==> conclusion == "success"@)
            &&& ended ==> (runs_say(doc) == Ci::Failed <==> conclusion == "failure"@ || conclusion
                == "startup_failure"@)
            &&& ended ==> (runs_say(doc) == Ci::Neutral <==> conclusion == "cancelled"@
                || conclusion == "skipped"@ || conclusion == "timed_out"@ || conclusion
                == "neutral"@ || conclusion == "stale"@ || conclusion == "action_required"@)
            &&& run_id_in(doc) == number_at(runs[0], "databaseId"@)
        }),
{
    reveal_strlit("success");
    reveal_strlit("failure");
    reveal_strlit("startup_failure");
    reveal_strlit("cancelled");
    reveal_strlit("skipped");
    reveal_strlit("timed_out");
    reveal_strlit("neutral");
    reveal_strlit("stale");
    reveal_strlit("action_required");
    assert("success"@[0] == 's' && "failure"@[0] == 'f' && "startup_failure"@.len() == 15);
    assert("cancelled"@[0] == 'c' && "skipped"@[1] == 'k' && "timed_out"@[0] == 't');
    assert("neutral"@[0] == 'n' && "stale"@.len() == 5 && "action_required"@[0] == 'a');
    assert("success"@[1] == 'u' && "skipped"@.len() == 7);
    assert("startup_failure"@[0] == 's');
}

/// Without a run nothing is known of CI.
pub proof fn without_runs_nothing_is_known(doc: Json)
    ensures
        doc matches Json::List(all) && all@.len() == 0 ==> runs_say(doc) == Ci::Unknown
            && run_id_in(doc) is None,
        !(doc is List) ==> runs_say(doc) == Ci::Unknown && run_id_in(doc) is None && pr_count_in(
            doc,
        ) is None,
        doc matches Json::List(all) ==> pr_count_in(doc) matches Some(n) && n == all@.len(),
{
}

/// Whether a step of a job failed that says what it is called.
pub open spec fn failing(jobs: Seq<Json>, j: int, k: int) -> bool {
    &&& 0 <= j < jobs.len()
    &&& list_at(jobs[j], "steps"@) matches Some(steps) && 0 <= k < steps.len() && text_at(
        steps[k],
        "conclusion"@,
    ) == "failure"@ && (member(steps[k], "name"@) matches Some(Json::Text(_)))
}

/// What a step of a job is called.
pub open spec fn step_name(jobs: Seq<Json>, j: int, k: int) -> Seq<char> {
    match list_at(jobs[j], "steps"@) {
        Some(steps) => text_at(steps[k], "name"@),
        None => Seq::empty(),
    }
}

/// The tests failed where a step that failed is called after them, in whatever
/// job; where steps failed and none of them is, the tests did not; and where no
/// step failed nothing is known of them.
pub proof fn failing_steps_say_what_of_the_tests(doc: Json, jobs: Seq<Json>)
    requires
        list_at(doc, "jobs"@) == Some(jobs),
    ensures
        jobs_say(doc) == Tests::Failed <==> exists|j: int, k: int| #[trigger]
            failing(jobs, j, k) && names_tests(step_name(jobs, j, k)),
        jobs_say(doc) == Tests::Unknown <==> !exists|j: int, k: int| #[trigger] failing(jobs, j, k),
{
    if any_failed(jobs, true) {
        let j = choose|j: int| 0 <= j < jobs.len() && job_failed(#[trigger] jobs[j], true);
        let steps = list_at(jobs[j], "steps"@)->0;
        let k = choose|k: int| 0 <= k < steps.len() && counts_failed(#[trigger] steps[k], true);
        assert(failing(jobs, j, k) && names_tests(step_name(jobs, j, k)));
    }
    if any_failed(jobs, false) {
        let j = choose|j: int| 0 <= j < jobs.len() && job_failed(#[trigger] jobs[j], false);
        let steps = list_at(jobs[j], "steps"@)->0;
        let k = choose|k: int| 0 <= k < steps.len() && counts_failed(#[trigger] steps[k], false);
        assert(failing(jobs, j, k));
    }
    assert forall|j: int, k: int| #[trigger] failing(jobs, j, k) implies any_failed(jobs, false) && (
    names_tests(step_name(jobs, j, k)) ==> any_failed(jobs, true)) by {
        let steps = list_at(jobs[j], "steps"@)->0;
        assert(counts_failed(steps[k], false));
        assert(job_failed(jobs[j], false));
        if names_tests(step_name(jobs, j, k)) {
            assert(counts_failed(steps[k], true));
            assert(job_failed(jobs[j], true));
        }
    }
}

/// A step is called after the tests where its name holds `test` or `spec`, in
/// capitals or not, or `jest`, and whatever stands before and behind.
pub proof fn a_test_by_any_name(before: Seq<char>, word: Seq<char>, after: Seq<char>)
    requires
        ({
            let lower = word.map_values(|c: char| ascii_lower(c));
            lower == "test"@ || lower == "spec"@ || lower == "jest"@
        }),
    ensures
        names_tests(before + word + after),
{
    let f = |c: char| ascii_lower(c);
    let name = before + word + after;
    let lower = name.map_values(f);
    let w = word.map_values(f);
    assert(lower.subrange(before.len() as int, before.len() as int + w.len()) =~= w);
    assert(occurs_at(lower, w, before.len() as int));
}

/// A name that holds none of these is not called after the tests.
pub proof fn no_test_by_another_name(name: Seq<char>)
    requires
        ({
            let lower = name.map_values(|c: char| ascii_lower(c));
            !has_text(lower, "test"@) && !has_text(lower, "spec"@) && !has_text(lower, "jest"@)
        }),
    ensures
        !names_tests(name),
{
    let lower = name.map_values(|c: char| ascii_lower(c));
    reveal_strlit("test");
    reveal_strlit("pytest");
    reveal_strlit("vitest");
    if has_text(lower, "pytest"@) {
        let i = choose|i: int| occurs_at(lower, "pytest"@, i);
        assert(lower.subrange(i + 2, i + 6) =~= lower.subrange(i, i + 6).skip(2));
        assert("pytest"@.skip(2) =~= "test"@);
        assert(occurs_at(lower, "test"@, i + 2));
    }
    if has_text(lower, "vitest"@) {
        let i = choose|i: int| occurs_at(lower, "vitest"@, i);
        assert(lower.subrange(i + 2, i + 6) =~= lower.subrange(i, i + 6).skip(2));
        assert("vitest"@.skip(2) =~= "test"@);
        assert(occurs_at(lower, "test"@, i + 2));
    }
}

/// Reviews that say something in their own words are counted one by one, and those
/// that do not are not.
pub proof fn reviews_with_words_are_counted(a: Seq<Json>, b: Seq<Json>, review: Json)
    ensures
        bodies(Seq::empty()) == 0,
        bodies(seq![review]) == if blank(text_at(review, "body"@)) {
            0nat
        } else {
            1nat
        },
        bodies(a + b) == bodies(a) + bodies(b),
    decreases b.len(),
{
    trimming_leaves_the_middle(text_at(review, "body"@));
    assert(seq![review].drop_last() =~= Seq::<Json>::empty());
    assert(bodies(seq![review].drop_last()) == 0);
    assert(seq![review].last() == review);
    if b.len() == 0 {
        assert(a + b =~= a);
    } else {
        assert((a + b).drop_last() =~= a + b.drop_last());
        assert((a + b).last() == b.last());
        reviews_with_words_are_counted(a, b.drop_last(), review);
    }
}

/// What was said on a pull request is its conversation and the reviews with words
/// of their own, as far as it can be counted; and changes are asked for where a
/// review blocks.
pub proof fn a_review_is_what_was_said(doc: Json)
    ensures
        items_at(doc, "comments"@).len() + bodies(items_at(doc, "reviews"@)) <= usize::MAX
            ==> review_in(doc).comments == items_at(doc, "comments"@).len() + bodies(
            items_at(doc, "reviews"@),
        ),
        review_in(doc).changes_requested == blocked(items_at(doc, "reviews"@)),
{
}

/// Asking for changes blocks a pull request, whatever came before; and without
/// anyone asking for changes nothing blocks it.
pub proof fn asking_for_changes_blocks(reviews: Seq<Json>, later: Json)
    ensures
        text_at(later, "state"@) == "CHANGES_REQUESTED"@ ==> blocked(reviews.push(later)),
        (forall|i: int|
            0 <= i < reviews.len() ==> text_at(#[trigger] reviews[i], "state"@)
                != "CHANGES_REQUESTED"@) ==> !blocked(reviews),
{
    let all = reviews.push(later);
    let n = reviews.len() as int;
    assert(all[n] == later);
    if text_at(later, "state"@) == "CHANGES_REQUESTED"@ {
        assert(last_word(all, n));
    }
}

/// A review is its commenter's by the login that it names, and one that names
/// nobody is not known to be anybody's.
pub proof fn commenters_are_told_by_their_logins(a: Json, b: Json)
    ensures
        same_commenter(a, b) ==> (member(a, "author"@) matches Some(x) && (member(b, "author"@)
            matches Some(y) && text_at(x, "login"@) == text_at(y, "login"@) && text_at(
            x,
            "login"@,
        ).len() > 0)),
        member(a, "author"@) matches Some(x) && member(b, "author"@) matches Some(y) && text_at(
            x,
            "login"@,
        ) == text_at(y, "login"@) && text_at(x, "login"@).len() > 0 ==> same_commenter(a, b),
{
}

} // verus!
