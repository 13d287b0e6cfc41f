//! Everything that git is asked.
//!
//! Read-only by construction: every question here is a query. Nothing stages,
//! commits, checks out, stashes, or writes to `refs/`.

use vstd::prelude::*;
use vstd::string::*;

use crate::git::base::Base;
use crate::git::{blame, branch, graph, history, stash};
use crate::text::{decimal_of, texts};

verus! {

/// A question to git.
#[derive(Debug, PartialEq, Eq)]
pub enum Query {
    /// The top level of the worktree.
    Root,
    /// What strayed from the last commit, every untracked file by itself: collapsing
    /// a wholly untracked directory into one entry would leave a tree view nothing
    /// to expand.
    Status,
    /// What differs from a revision.
    NameStatus { rev: String },
    /// Every tracked file.
    Files,
    /// The branch that is checked out; fails on a detached HEAD.
    Branch,
    /// The commit that is checked out, abbreviated.
    Commit,
    /// How far the branch is from the one it tracks. Counted locally: nothing
    /// contacts the remote.
    Upstream,
    /// The branch that the current one tracks, by name.
    UpstreamName,
    /// The commit that a name stands for.
    ///
    /// `^{commit}` forces the answer to be a commit: a tag object or a tree would
    /// otherwise resolve to something `git diff` treats differently. The `--`
    /// keeps a file of that name from being meant instead.
    Verify { name: String },
    /// Whether a commit has what its name asks for.
    Parent { name: String },
    /// Where the current branch and another meet.
    Meeting { name: String },
    /// Where the current branch and another meet, of the branches alone.
    MeetingBranch { name: String },
    /// What one file differs in from a revision. The `--` keeps a file named like a
    /// branch from being taken for one.
    Diff { rev: String, path: String },
    /// Where the repository was cloned from.
    Remote,
    /// Who last touched each line of a file.
    Blame { path: String, base: Base },
    /// The commits that touched a file, the newest first.
    History { path: String, max_commits: usize },
    /// What has been set aside.
    Stashes,
    /// The local branches, the most recently committed first.
    Branches,
    /// The shape of the recent history.
    Graph { max_commits: usize },
}

/// A question as the words of a command line, after `git`.
pub open spec fn words_for(query: Query) -> Seq<Seq<char>> {
    match query {
        Query::Root => seq!["rev-parse"@, "--show-toplevel"@],
        Query::Status => seq!["status"@, "--porcelain=v2"@, "-z"@, "--untracked-files=all"@],
        Query::NameStatus { rev } => seq!["diff"@, "--name-status"@, "-z"@, rev@, "--"@],
        Query::Files => seq!["ls-files"@, "-z"@],
        Query::Branch => seq!["symbolic-ref"@, "--quiet"@, "--short"@, "HEAD"@],
        Query::Commit => seq!["rev-parse"@, "--short"@, "HEAD"@],
        Query::Upstream => seq!["rev-list"@, "--count"@, "--left-right"@, "@{u}...HEAD"@],
        Query::UpstreamName => seq!["rev-parse"@, "--abbrev-ref"@, "--symbolic-full-name"@, "@{u}"@],
        Query::Verify { name } => seq!["rev-parse"@, "--verify"@, "--quiet"@, name@ + "^{commit}"@, "--"@],
        Query::Parent { name } => seq!["rev-parse"@, "--verify"@, "--quiet"@, name@],
        Query::Meeting { name } => seq!["merge-base"@, "HEAD"@, name@],
        Query::MeetingBranch { name } => seq!["merge-base"@, "HEAD"@, name@, "--"@],
        Query::Diff { rev, path } => seq!["diff"@, rev@, "--"@, path@],
        Query::Remote => seq!["remote"@, "get-url"@, "origin"@],
        Query::Blame { path, base } => if base is Head {
            seq!["blame"@, "--porcelain"@, "-w"@, "--"@, path@]
        } else {
            seq!["blame"@, "--porcelain"@, "-w"@, base.revision(), "--"@, path@]
        },
        Query::History { path, max_commits } => seq![
            "log"@,
            "--follow"@,
            "-"@ + decimal_of(max_commits as nat),
            "--format=%H%x00%h%x00%an%x00%at%x00%s%x00"@,
            "--"@,
            path@,
        ],
        Query::Stashes => seq![
            "stash"@,
            "list"@,
            "--format=%gd%x00%H%x00%h%x00%an%x00%at%x00%gs%x00"@,
        ],
        Query::Branches => seq![
            "for-each-ref"@,
            "--format=%(refname:short)%00%(objectname:short)%00%(authorname)%00%(committerdate:unix)%00%(upstream:short)%00%(upstream:track)%00%(HEAD)%00%(contents:subject)%00"@,
            "--sort=-committerdate"@,
            "refs/heads/"@,
        ],
        Query::Graph { max_commits } => seq![
            "log"@,
            "--graph"@,
            "-"@ + decimal_of(max_commits as nat),
            "--format=%H%x00%h%x00%an%x00%at%x00%s"@,
        ],
    }
}

impl Query {
    /// The question as the words of a command line, after `git`.
    pub fn arguments(&self) -> (r: Vec<String>)
        ensures
            texts(r@) == words_for(*self),
    {
        let r = match self {
            Query::Root => vec![
                "rev-parse".to_owned(),
                "--show-toplevel".to_owned(),
            ],
            Query::Status => vec![
                "status".to_owned(),
                "--porcelain=v2".to_owned(),
                "-z".to_owned(),
                "--untracked-files=all".to_owned(),
            ],
            Query::NameStatus { rev } => vec![
                "diff".to_owned(),
                "--name-status".to_owned(),
                "-z".to_owned(),
                rev.clone(),
                "--".to_owned(),
            ],
            Query::Files => vec![
                "ls-files".to_owned(),
                "-z".to_owned(),
            ],
            Query::Branch => vec![
                "symbolic-ref".to_owned(),
                "--quiet".to_owned(),
                "--short".to_owned(),
                "HEAD".to_owned(),
            ],
            Query::Commit => vec![
                "rev-parse".to_owned(),
                "--short".to_owned(),
                "HEAD".to_owned(),
            ],
            Query::Upstream => vec![
                "rev-list".to_owned(),
                "--count".to_owned(),
                "--left-right".to_owned(),
                "@{u}...HEAD".to_owned(),
            ],
            Query::UpstreamName => vec![
                "rev-parse".to_owned(),
                "--abbrev-ref".to_owned(),
                "--symbolic-full-name".to_owned(),
                "@{u}".to_owned(),
            ],
            Query::Verify { name } => vec![
                "rev-parse".to_owned(),
                "--verify".to_owned(),
                "--quiet".to_owned(),
                name.clone().concat("^{commit}"),
                "--".to_owned(),
            ],
            Query::Parent { name } => vec![
                "rev-parse".to_owned(),
                "--verify".to_owned(),
                "--quiet".to_owned(),
                name.clone(),
            ],
            Query::Meeting { name } => vec![
                "merge-base".to_owned(),
                "HEAD".to_owned(),
                name.clone(),
            ],
            Query::MeetingBranch { name } => vec![
                "merge-base".to_owned(),
                "HEAD".to_owned(),
                name.clone(),
                "--".to_owned(),
            ],
            Query::Diff { rev, path } => vec![
                "diff".to_owned(),
                rev.clone(),
                "--".to_owned(),
                path.clone(),
            ],
            Query::Remote => vec![
                "remote".to_owned(),
                "get-url".to_owned(),
                "origin".to_owned(),
            ],
            Query::Blame { path, base } => blame::arguments(path.as_str(), base),
            Query::History { path, max_commits } => history::arguments(
                path.as_str(),
                *max_commits,
            ),
            Query::Stashes => stash::arguments(),
            Query::Branches => branch::arguments(),
            Query::Graph { max_commits } => graph::arguments(*max_commits),
        };
        assert(texts(r@) =~= words_for(*self));
        r
    }
}

/// Whether a command line names a command that reads: one that has no form that
/// writes, or the form of another that does not.
pub open spec fn is_reading(words: Seq<Seq<char>>) -> bool {
    words.len() > 0 && {
        ||| words[0] == "status"@
        ||| words[0] == "diff"@
        ||| words[0] == "log"@
        ||| words[0] == "blame"@
        ||| words[0] == "rev-parse"@
        ||| words[0] == "rev-list"@
        ||| words[0] == "merge-base"@
        ||| words[0] == "ls-files"@
        ||| words[0] == "for-each-ref"@
        ||| words == seq!["symbolic-ref"@, "--quiet"@, "--short"@, "HEAD"@]
        ||| (words.len() > 1 && words[0] == "remote"@ && words[1] == "get-url"@)
        ||| (words.len() > 1 && words[0] == "stash"@ && words[1] == "list"@)
    }
}

/// Whether a word is no option that names a file to write to: git's are spelled
/// `--output`.
pub open spec fn names_no_output(word: Seq<char>) -> bool {
    word.len() < 3 || word[0] != '-' || word[1] != '-' || word[2] != 'o'
}

/// Whether no option of a command line names a file to write to. What follows
/// `--` is no option.
pub open spec fn writes_nowhere(words: Seq<Seq<char>>) -> bool {
    forall|i: int|
        0 <= i < words.len() && (forall|k: int| 0 <= k < i ==> #[trigger] words[k] != "--"@)
            ==> names_no_output(#[trigger] words[i])
}

/// Whether a name cannot be taken for an option.
pub open spec fn no_option(name: Seq<char>) -> bool {
    name.len() == 0 || name[0] != '-'
}

/// The names in a question that stand where an option could.
pub open spec fn names_in(query: Query) -> Seq<char> {
    match query {
        Query::NameStatus { rev } => rev@,
        Query::Verify { name } => name@,
        Query::Parent { name } => name@,
        Query::Meeting { name } => name@,
        Query::MeetingBranch { name } => name@,
        Query::Diff { rev, .. } => rev@,
        Query::Blame { base, .. } => base.revision(),
        _ => Seq::empty(),
    }
}

/// Read-only by construction: whatever git is asked, it is asked by a command
/// that reads.
pub proof fn every_question_reads(query: Query)
    ensures
        is_reading(words_for(query)),
{
}

/// No question has git write its answer anywhere, as long as the names in it are
/// names: a revision or a branch that starts with a dash would be an option.
pub proof fn no_question_names_an_output(query: Query)
    requires
        no_option(names_in(query)),
    ensures
        writes_nowhere(words_for(query)),
{
    reveal_strlit("-");
    reveal_strlit("--");
    reveal_strlit("--abbrev-ref");
    reveal_strlit("--count");
    reveal_strlit("--follow");
    reveal_strlit("--format=%(refname:short)%00%(objectname:short)%00%(authorname)%00%(committerdate:unix)%00%(upstream:short)%00%(upstream:track)%00%(HEAD)%00%(contents:subject)%00");
    reveal_strlit("--format=%H%x00%h%x00%an%x00%at%x00%s");
    reveal_strlit("--format=%H%x00%h%x00%an%x00%at%x00%s%x00");
    reveal_strlit("--format=%gd%x00%H%x00%h%x00%an%x00%at%x00%gs%x00");
    reveal_strlit("--graph");
    reveal_strlit("--left-right");
    reveal_strlit("--name-status");
    reveal_strlit("--porcelain");
    reveal_strlit("--porcelain=v2");
    reveal_strlit("--quiet");
    reveal_strlit("--short");
    reveal_strlit("--show-toplevel");
    reveal_strlit("--sort=-committerdate");
    reveal_strlit("--symbolic-full-name");
    reveal_strlit("--untracked-files=all");
    reveal_strlit("--verify");
    reveal_strlit("-w");
    reveal_strlit("-z");
    reveal_strlit("@{u}");
    reveal_strlit("@{u}...HEAD");
    reveal_strlit("HEAD");
    reveal_strlit("blame");
    reveal_strlit("diff");
    reveal_strlit("for-each-ref");
    reveal_strlit("get-url");
    reveal_strlit("list");
    reveal_strlit("log");
    reveal_strlit("ls-files");
    reveal_strlit("merge-base");
    reveal_strlit("origin");
    reveal_strlit("refs/heads/");
    reveal_strlit("remote");
    reveal_strlit("rev-list");
    reveal_strlit("rev-parse");
    reveal_strlit("stash");
    reveal_strlit("status");
    reveal_strlit("symbolic-ref");
    reveal_strlit("^{commit}");
    if let Query::History { max_commits, .. } = query {
        lemma_count(max_commits);
    }
    if let Query::Graph { max_commits } = query {
        lemma_count(max_commits);
    }
    if let Query::Blame { base, .. } = query {
        assert(no_option(base.revision()));
    }
}

/// A count behind a dash is no other option.
proof fn lemma_count(n: usize)
    ensures
        names_no_output("-"@ + decimal_of(n as nat)),
{
    reveal_strlit("-");
    lemma_first_digit(n as nat);
}

proof fn lemma_first_digit(n: nat)
    ensures
        decimal_of(n).len() > 0,
        decimal_of(n)[0] != '-',
    decreases n,
{
    if n >= 10 {
        lemma_first_digit(n / 10);
    }
}

} // verus!
