//! What the hosting forge says about a repository — whether CI passed, and what
//! commenters said.
//!
//! Everything here is slow and allowed to fail. A git call takes tens of
//! milliseconds against a local disk; a forge call crosses a network, can be
//! rate-limited, can want credentials nobody has set up, and can simply hang.
//! That difference is why this does not travel on the scanner's channel: a
//! round of strays must never wait on GitHub.
//!
//! So the whole module is built to answer "nothing known" rather than to fail.
//! A missing `gh`, an unauthenticated one, a repository with no remote, a forge
//! nobody wrote support for — all of them are [`Ci::Unknown`], and the list
//! renders as it would without any of this.

use vstd::prelude::*;
use vstd::string::*;

use crate::bytes::{decode, lossy_text};
use crate::git::run::GitError;
use crate::paths::{parts, same_as, same_path, Part};
use crate::seqs::{lemma_split_nonempty, split_on};
use crate::text::{
    ascii_lower, chars_of, decimal, decimal_of, find_text_from, first_at, same, split, text_between,
    texts, to_ascii_lower, trim, trimmed,
};

pub use crate::forge::worker::{ask_one, Forge, ForgeRequest, Update};

pub mod github;
pub mod hosting;
pub mod worker;

verus! {

/// Which hosting service a repository's origin points at.
///
/// Only what can be acted on: GitHub is what `gh` can answer for. Anything else
/// is `Other`, which is not a failure — it is the honest answer for a repository
/// on a forge this does not speak to, and it keeps that repository from being
/// asked about over and over.
#[derive(Debug, Clone, Copy, PartialEq, Eq, Structural)]
pub enum Host {
    GitHub,
    Other,
}

/// How the last CI run for a branch ended.
///
/// `Unknown` is not an error state — it is the state of every repository before
/// anyone has been asked, and the state of every repository this cannot answer
/// for. It is spelled out rather than being optional at the use site so that
/// "not asked yet" and "asked, nothing there" cannot be confused for a run that
/// is still going.
#[derive(Debug, Clone, Copy, PartialEq, Eq, Structural)]
pub enum Ci {
    /// Nothing is known: not asked, not answerable, or the answer failed.
    Unknown,
    /// A run is in progress.
    Running,
    Passed,
    Failed,
    /// The run ended without passing or failing — cancelled, skipped, timed out.
    ///
    /// Kept apart from `Failed` because it says nothing about the code. A
    /// cancelled run reported as a failure would send someone looking for a bug
    /// that CI never claimed to have found.
    Neutral,
}

impl Ci {
    /// One character for the status line, or none when nothing is known.
    ///
    /// `None` rather than a space: a caller that has nothing to say should draw
    /// nothing, and returning a blank would make every row pay for a column
    /// that most repositories cannot fill.
    pub fn marker(&self) -> (r: Option<char>)
        ensures
            r == (match *self {
                Ci::Unknown => None,
                Ci::Running => Some('◔'),
                Ci::Passed => Some('✓'),
                Ci::Failed => Some('✗'),
                Ci::Neutral => Some('–'),
            }),
    {
        match self {
            Ci::Unknown => None,
            Ci::Running => Some('◔'),
            Ci::Passed => Some('✓'),
            Ci::Failed => Some('✗'),
            Ci::Neutral => Some('–'),
        }
    }

    /// Whether this is worth drawing at all.
    pub fn is_known(&self) -> (r: bool)
        ensures
            r == !(self is Unknown),
    {
        match self {
            Ci::Unknown => false,
            _ => true,
        }
    }
}

/// What review the pull request for the checked-out branch has drawn.
///
/// Scoped to that one pull request rather than the whole repository, for the
/// same reason [`Ci`] is scoped to the branch: what the reader wants to know is
/// whether anybody has asked *them* for something. Review left on somebody
/// else's pull request is not their queue.
#[derive(Debug, Clone, Copy, PartialEq, Eq, Structural)]
pub struct Review {
    /// Comments left on the pull request and on its diff.
    pub comments: usize,
    /// Whether a commenter asked for changes and has not since approved.
    ///
    /// Kept apart from the comment count because the two say different things:
    /// twenty comments can all be praise, and a single "changes requested" with
    /// no comment at all still blocks the merge.
    pub changes_requested: bool,
}

impl Default for Review {
    fn default() -> (r: Self)
        ensures
            r == (Review { comments: 0, changes_requested: false }),
    {
        Review { comments: 0, changes_requested: false }
    }
}

impl Review {
    /// How the review reads: the comment count where there is one, then a mark
    /// where changes were asked for.
    pub open spec fn summary(&self) -> Seq<char> {
        let counted = decimal_of(self.comments as nat) + "💬"@;
        if self.comments > 0 && self.changes_requested {
            counted + seq![' ', '±']
        } else if self.comments > 0 {
            counted
        } else {
            seq!['±']
        }
    }

    /// Whether there is anything here worth a mark.
    ///
    /// A pull request nobody has reviewed is the ordinary state of a pull
    /// request that was just opened; it is not news.
    pub fn is_pending(&self) -> (r: bool)
        ensures
            r == (self.comments > 0 || self.changes_requested),
    {
        self.comments > 0 || self.changes_requested
    }

    /// A short summary, or `None` when the commenters have said nothing.
    ///
    /// `None` rather than an empty string, so a caller cannot paint a blank
    /// where it meant to paint nothing.
    pub fn label(&self) -> (r: Option<String>)
        ensures
            r is Some <==> self.comments > 0 || self.changes_requested,
            r matches Some(s) ==> s@ == self.summary(),
    {
        if !self.is_pending() {
            return None;
        }
        let mut label = String::new();
        if self.comments > 0 {
            label = decimal(self.comments as u64);
            label.append("💬");
            if self.changes_requested {
                label.push(' ');
            }
        }
        if self.changes_requested {
            label.push('±');
        }
        assert(label@ =~= self.summary());
        Some(label)
    }
}

/// What the last CI run said about the tests specifically.
///
/// Separate from [`Ci`] because a red run is not news on its own — the reader
/// still has to open a browser to learn whether the code is broken or the
/// formatter is unhappy. The two failures lead to different files and different
/// work, and telling them apart is the whole point of asking.
///
/// A run that failed at a step this cannot classify stays `Unknown`. Reporting
/// a lint failure as a test failure would send someone hunting a bug that CI
/// never claimed to have found — the same reason [`Ci::Neutral`] is kept apart
/// from [`Ci::Failed`].
#[derive(Debug, Clone, Copy, PartialEq, Eq, Structural)]
pub enum Tests {
    /// Not asked, not answerable, or the run failed somewhere else.
    Unknown,
    Passed,
    Failed,
}

impl Default for Tests {
    fn default() -> (r: Self)
        ensures
            r == Tests::Unknown,
    {
        Tests::Unknown
    }
}

impl Tests {
    /// A short label, or `None` when nothing is known.
    ///
    /// Passing draws nothing: a green run already carries `✓`, and a second
    /// mark saying the same thing would spend a column on no new information.
    /// What is worth the space is the one case the run status cannot express —
    /// that of everything CI checked, the tests are what broke.
    pub fn label(self) -> (r: Option<&'static str>)
        ensures
            r is Some <==> self is Failed,
            r matches Some(s) ==> s@ == "tests✗"@,
    {
        match self {
            Tests::Failed => Some("tests✗"),
            Tests::Unknown => None,
            Tests::Passed => None,
        }
    }
}

/// One remark a commenter left on one line of the pull request's diff.
///
/// Kept as its own type rather than folded into [`crate::annotate::Annotation`]
/// because the two are not the same thing and must not be able to become each
/// other. An annotation is the reader's, unsent, editable, and on its way to an
/// agent; this is somebody else's, already published, and read-only here.
#[derive(Debug, PartialEq, Eq)]
pub struct PrComment {
    /// Path relative to the repository root, as the forge reports it.
    pub file: String,
    /// The line in the new file the comment is against.
    pub line: u32,
    /// Who wrote it. Empty when the forge did not say.
    pub author: String,
    pub body: String,
}

/// A commenter's remark, with its texts as characters.
pub struct CommentView {
    pub file: Seq<char>,
    pub line: u32,
    pub author: Seq<char>,
    pub body: Seq<char>,
}

impl View for PrComment {
    type V = CommentView;

    open spec fn view(&self) -> CommentView {
        CommentView {
            file: self.file@,
            line: self.line,
            author: self.author@,
            body: self.body@,
        }
    }
}

impl Clone for PrComment {
    fn clone(&self) -> (r: Self)
        ensures
            r == *self,
    {
        PrComment {
            file: self.file.clone(),
            line: self.line,
            author: self.author.clone(),
            body: self.body.clone(),
        }
    }
}

/// The remarks of a list, with their texts as characters.
pub open spec fn comment_views(v: Seq<PrComment>) -> Seq<CommentView> {
    v.map_values(|c: PrComment| c@)
}

/// What a forge said about one repository.
#[derive(Debug, PartialEq, Eq)]
pub struct ForgeStatus {
    pub ci: Ci,
    /// How many pull requests are open against this repository.
    ///
    /// `None` when unasked or unanswerable, which is a different thing from
    /// `Some(0)` — "no open PRs" is a fact worth showing, "nobody knows" is not.
    pub open_prs: Option<usize>,
    /// What commenters have said on the pull request for the checked-out branch.
    ///
    /// `None` when unasked, unanswerable, or when the branch has no pull
    /// request at all — which is the common case and not a problem.
    pub review: Option<Review>,
    /// What commenters wrote against individual lines of the branch's diff.
    ///
    /// A plain list rather than an optional one: unlike the counts beside it,
    /// an empty list and an unasked one are drawn identically — nothing in the
    /// gutter — so distinguishing them would buy a case nobody can see.
    pub comments: Vec<PrComment>,
    /// What the last run said about the tests, as opposed to the run as a whole.
    pub tests: Tests,
}

/// Whether two answers say the same.
pub open spec fn same_status(a: ForgeStatus, b: ForgeStatus) -> bool {
    &&& a.ci == b.ci
    &&& a.open_prs == b.open_prs
    &&& a.review == b.review
    &&& a.comments@ == b.comments@
    &&& a.tests == b.tests
}

impl Clone for ForgeStatus {
    fn clone(&self) -> (r: Self)
        ensures
            same_status(r, *self),
    {
        let comments = self.comments.clone();
        assert(comments@ =~= self.comments@);
        ForgeStatus {
            ci: self.ci,
            open_prs: self.open_prs,
            review: self.review,
            comments,
            tests: self.tests,
        }
    }
}

impl Default for ForgeStatus {
    fn default() -> (r: Self)
        ensures
            r.ci == Ci::Unknown,
            r.open_prs is None,
            r.review is None,
            r.comments@.len() == 0,
            r.tests == Tests::Unknown,
    {
        ForgeStatus {
            ci: Ci::Unknown,
            open_prs: None,
            review: None,
            comments: Vec::new(),
            tests: Tests::Unknown,
        }
    }
}

impl ForgeStatus {
    /// Whether anything here is worth drawing.
    pub fn is_known(&self) -> (r: bool)
        ensures
            r == (!(self.ci is Unknown) || self.open_prs is Some || self.review is Some),
    {
        self.ci.is_known() || self.open_prs.is_some() || self.review.is_some()
    }

    /// What the tests are worth saying, if anything.
    pub fn tests_label(&self) -> (r: Option<&'static str>)
        ensures
            r is Some <==> self.tests is Failed,
            r matches Some(s) ==> s@ == "tests✗"@,
    {
        self.tests.label()
    }

    /// The comments left on one file, in the order the forge reported them.
    pub fn comments_on(&self, file: &str) -> (r: Vec<&PrComment>)
        ensures
            r@.unref() == self.comments@.filter(|c: PrComment| same_path(c.file@, file@)),
    {
        comments_at(&self.comments, file)
    }
}

fn comments_at<'a>(comments: &'a Vec<PrComment>, file: &str) -> (r: Vec<&'a PrComment>)
    ensures
        r@.unref() == comments@.filter(|c: PrComment| same_path(c.file@, file@)),
{
    let ghost p = |c: PrComment| same_path(c.file@, file@);
    let mut out: Vec<&'a PrComment> = Vec::new();
    proof {
        reveal(Seq::filter);
        assert(out@.unref() =~= Seq::<PrComment>::empty());
        assert(comments@.take(0).filter(p) =~= Seq::<PrComment>::empty());
    }
    for i in 0..comments.len()
        invariant
            p == (|c: PrComment| same_path(c.file@, file@)),
            out@.unref() =~= comments@.take(i as int).filter(p),
    {
        let ghost before = out@.unref();
        proof {
            let c = comments@[i as int];
            assert(comments@.take(i + 1) =~= comments@.take(i as int).push(c));
            comments@.take(i as int).lemma_filter_push(c, p);
        }
        if same_as(comments[i].file.as_str(), file) {
            out.push(&comments[i]);
            assert(out@.unref() =~= before.push(comments@[i as int]));
        }
    }
    assert(comments@.take(comments@.len() as int) =~= comments@);
    out
}

/// The host that a remote URL names: of what stands behind the scheme and before
/// the first `/`, the part behind the last `@` and before the first `:`. An `@`
/// further on belongs to the path.
pub open spec fn host_in(url: Seq<char>) -> Seq<char> {
    let after_scheme = match first_at(url, "://"@, 0) {
        Some(i) => url.skip(i + 3),
        None => url,
    };
    let authority = split_on(after_scheme, '/')[0];
    let after_user = split_on(authority, '@').last();
    split_on(after_user, ':')[0]
}

/// Whether a remote URL's host is GitHub's, in capitals or not.
pub open spec fn is_github(url: Seq<char>) -> bool {
    host_in(url).map_values(|c: char| ascii_lower(c)) == "github.com"@
}

fn lowered(s: &str) -> (r: String)
    ensures
        r@ == s@.map_values(|c: char| ascii_lower(c)),
{
    let cs = chars_of(s);
    let ghost all = s@.map_values(|c: char| ascii_lower(c));
    let mut out = String::new();
    for i in 0..cs.len()
        invariant
            cs@ == s@,
            all == s@.map_values(|c: char| ascii_lower(c)),
            out@ =~= all.take(i as int),
    {
        out.push(to_ascii_lower(cs[i]));
    }
    assert(all.take(all.len() as int) =~= all);
    out
}

/// The forge a remote URL belongs to.
///
/// Handles both URL forms git uses — `https://host/owner/repo` and the scp-like
/// `git@host:owner/repo` — because which one a person cloned with says nothing
/// about who hosts it. Anchoring on the separator that follows the host keeps
/// `github.com.evil.example` from matching.
pub fn host_of_url(url: &str) -> (r: Host)
    ensures
        r == if is_github(url@) {
            Host::GitHub
        } else {
            Host::Other
        },
{
    let cs = chars_of(url);
    let mark = chars_of("://");
    proof {
        reveal_strlit("://");
    }
    let after_scheme = match find_text_from(&cs, &mark, 0) {
        Some(i) => text_between(&cs, i + 3, cs.len()),
        None => url.to_owned(),
    };
    proof {
        match first_at(url@, "://"@, 0) {
            Some(i) => {
                assert(after_scheme@ =~= url@.skip(i + 3));
            },
            None => {},
        }
        lemma_split_nonempty(after_scheme@, '/');
    }
    let by_slash = split(after_scheme.as_str(), '/');
    proof {
        assert(texts(by_slash@).len() == by_slash@.len());
        assert(texts(by_slash@)[0] == by_slash@[0]@);
        lemma_split_nonempty(by_slash@[0]@, '@');
    }
    let by_user = split(by_slash[0].as_str(), '@');
    proof {
        assert(texts(by_user@).len() == by_user@.len());
        assert(texts(by_user@).last() == by_user@.last()@);
        lemma_split_nonempty(by_user@.last()@, ':');
    }
    let by_colon = split(by_user[by_user.len() - 1].as_str(), ':');
    proof {
        assert(texts(by_colon@).len() == by_colon@.len());
        assert(texts(by_colon@)[0] == by_colon@[0]@);
    }
    let host = lowered(by_colon[0].as_str());
    if same(host.as_str(), "github.com") {
        Host::GitHub
    } else {
        Host::Other
    }
}

/// Which forge a repository's `origin` points at, from what
/// `remote get-url origin` answered.
///
/// The URL is the only thing that says who hosts a repository. One with no
/// `origin` is `Other` rather than an error — a local-only repository is
/// perfectly normal and simply has no forge to ask.
pub fn host_of(out: &Result<Vec<u8>, GitError>) -> (r: Host)
    ensures
        r == (match *out {
            Err(_) => Host::Other,
            Ok(bytes) => if is_github(trimmed(lossy_text(bytes@))) {
                Host::GitHub
            } else {
                Host::Other
            },
        }),
{
    match out {
        Err(_) => Host::Other,
        Ok(bytes) => {
            let text = decode(bytes.as_slice());
            let url = trim(text.as_str());
            host_of_url(url.as_str())
        },
    }
}

/// What the forge answered, per repository root.
///
/// Kept beside the projects rather than in them because the forge is asked
/// separately from the scan and may answer for only some of them.
#[derive(Debug, Clone, PartialEq, Eq)]
pub struct ForgeAnswers {
    entries: Vec<(String, ForgeStatus)>,
}

/// The answers that a list amounts to, a later one replacing an earlier one
/// for the same root.
pub open spec fn answers_in(entries: Seq<(String, ForgeStatus)>) -> Map<Seq<Part>, ForgeStatus>
    decreases entries.len(),
{
    if entries.len() == 0 {
        Map::empty()
    } else {
        answers_in(entries.drop_last()).insert(parts(entries.last().0@), entries.last().1)
    }
}

impl View for ForgeAnswers {
    type V = Map<Seq<Part>, ForgeStatus>;

    closed spec fn view(&self) -> Map<Seq<Part>, ForgeStatus> {
        answers_in(self.entries@)
    }
}

/// The last answer for a root is the one that counts.
proof fn lemma_answer(entries: Seq<(String, ForgeStatus)>, root: Seq<Part>, i: int)
    requires
        0 <= i <= entries.len(),
        forall|j: int| i <= j < entries.len() ==> parts((#[trigger] entries[j]).0@) != root,
    ensures
        answers_in(entries).contains_key(root) == answers_in(entries.take(i)).contains_key(root),
        answers_in(entries).contains_key(root) ==> answers_in(entries)[root] == answers_in(
            entries.take(i),
        )[root],
    decreases entries.len() - i,
{
    if i == entries.len() {
        assert(entries.take(i) =~= entries);
    } else {
        lemma_answer(entries, root, i + 1);
        assert(entries.take(i + 1).drop_last() =~= entries.take(i));
        assert(parts(entries[i].0@) != root);
    }
}

impl ForgeAnswers {
    /// Nobody has answered.
    pub fn new() -> (r: Self)
        ensures
            r@ == Map::<Seq<Part>, ForgeStatus>::empty(),
    {
        ForgeAnswers { entries: Vec::new() }
    }

    /// Record what was answered for a root, in place of what was before.
    pub fn insert(&mut self, root: String, status: ForgeStatus)
        ensures
            final(self)@ == old(self)@.insert(parts(root@), status),
    {
        let ghost before = self.entries@;
        let ghost key = parts(root@);
        let count: usize = self.entries.len();
        for i in 0..count
            invariant
                self.entries@ == before,
                count == before.len(),
                before == old(self).entries@,
                key == parts(root@),
        {
            if same_as(self.entries[i].0.as_str(), root.as_str()) {
                self.entries.remove(i);
                let ghost rest = self.entries@;
                self.entries.push((root, status));
                proof {
                    assert(self.entries@.drop_last() =~= rest);
                    let want = old(self)@.insert(key, status);
                    assert forall|other: Seq<Part>| #[trigger]
                        self@.dom().contains(other) == want.dom().contains(other) by {
                        if other != key {
                            lemma_removed(before, i as int, other);
                        }
                    }
                    assert forall|other: Seq<Part>| #[trigger]
                        self@.dom().contains(other) implies self@[other] == want[other] by {
                        if other != key {
                            lemma_removed(before, i as int, other);
                        }
                    }
                    assert(self@ =~= want);
                }
                return;
            }
        }
        self.entries.push((root, status));
        assert(self.entries@.drop_last() =~= before);
    }

    /// What was answered for a root, if anything was.
    pub fn get(&self, root: &str) -> (r: Option<&ForgeStatus>)
        ensures
            match r {
                Some(status) => self@.contains_key(parts(root@)) && *status == self@[parts(root@)],
                None => !self@.contains_key(parts(root@)),
            },
    {
        let mut i: usize = self.entries.len();
        while i > 0
            invariant
                i <= self.entries@.len(),
                forall|j: int|
                    i <= j < self.entries@.len() ==> parts((#[trigger] self.entries@[j]).0@)
                        != parts(root@),
            decreases i,
        {
            i -= 1;
            if same_as(self.entries[i].0.as_str(), root) {
                proof {
                    lemma_answer(self.entries@, parts(root@), i + 1);
                    assert(self.entries@.take(i + 1).drop_last() =~= self.entries@.take(i as int));
                }
                return Some(&self.entries[i].1);
            }
        }
        proof {
            lemma_answer(self.entries@, parts(root@), 0);
        }
        None
    }
}

/// Taking an answer out touches no other root.
proof fn lemma_removed(entries: Seq<(String, ForgeStatus)>, i: int, root: Seq<Part>)
    requires
        0 <= i < entries.len(),
        root != parts(entries[i].0@),
    ensures
        answers_in(entries.remove(i)).contains_key(root) == answers_in(entries).contains_key(root),
        answers_in(entries).contains_key(root) ==> answers_in(entries.remove(i))[root]
            == answers_in(entries)[root],
    decreases entries.len(),
{
    let rest = entries.remove(i);
    if i == entries.len() - 1 {
        assert(rest =~= entries.drop_last());
    } else {
        lemma_removed(entries.drop_last(), i, root);
        assert(rest.drop_last() =~= entries.drop_last().remove(i));
        assert(rest.last() == entries.last());
    }
}

} // verus!
