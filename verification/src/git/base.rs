//! What the diff is taken against.
//!
//! # Why this is not just a string
//!
//! Against `HEAD` a diff answers "what have I changed since my last commit".
//! That is the right question while writing code and the wrong one before
//! opening a review, where what matters is everything on the branch — and that
//! is a different comparison, not a longer one.
//!
//! The revision reaches a `git diff` argument list, so it cannot be an
//! unchecked string. A ref is resolved to a commit *before* it is used, which
//! means a typo fails with "no such revision" rather than being handed to git
//! and reinterpreted.
//!
//! # Merge base rather than branch tip
//!
//! Comparing against `origin/main` itself would report every commit made to
//! main since the branch was cut as though the branch had reverted it. The
//! merge base — where the branch actually diverged — is what "my work" means,
//! and it is what a forge computes for a pull request.

use vstd::prelude::*;
use vstd::string::*;

use crate::bytes::{decode, lossy_text};
use crate::git::run::{failure, said, GitError};
use crate::text::{text_view, texts, trim, trimmed};

verus! {

/// What a diff is taken against.
#[derive(Debug, PartialEq, Eq)]
pub enum Base {
    /// The last commit. Answers "what have I changed since I committed".
    ///
    /// The default: what a reader opening the viewer without asking for
    /// anything else means.
    Head,
    /// Where this branch diverged from the branch it will merge into.
    ///
    /// Carries both the name it was derived from and the commit it resolved to:
    /// the name is what the user recognises in the title bar, the commit is
    /// what git is actually given.
    MergeBase { name: String, commit: String },
    /// A revision the user named.
    Revision { name: String, commit: String },
}

impl Default for Base {
    fn default() -> (r: Self)
        ensures
            r == Base::Head,
    {
        Base::Head
    }
}

impl Clone for Base {
    fn clone(&self) -> (r: Self)
        ensures
            r == *self,
    {
        match self {
            Base::Head => Base::Head,
            Base::MergeBase { name, commit } => Base::MergeBase {
                name: name.clone(),
                commit: commit.clone(),
            },
            Base::Revision { name, commit } => Base::Revision {
                name: name.clone(),
                commit: commit.clone(),
            },
        }
    }
}

impl Base {
    /// What git is given to diff against.
    pub open spec fn revision(&self) -> Seq<char> {
        match self {
            Base::Head => "HEAD"@,
            Base::MergeBase { commit, .. } => commit@,
            Base::Revision { commit, .. } => commit@,
        }
    }

    /// How the base reads in the title bar.
    pub open spec fn title(&self) -> Seq<char> {
        match self {
            Base::Head => "HEAD"@,
            Base::MergeBase { name, .. } => name@,
            Base::Revision { name, .. } => name@,
        }
    }

    /// What git should be given to diff against.
    ///
    /// Always a resolved commit for anything but `HEAD`, so what is shown
    /// cannot drift from what was resolved — a branch that moves under a
    /// long-running viewer would otherwise silently change the answer.
    pub fn rev(&self) -> (r: &str)
        ensures
            r@ == self.revision(),
    {
        match self {
            Base::Head => "HEAD",
            Base::MergeBase { commit, .. } => commit.as_str(),
            Base::Revision { commit, .. } => commit.as_str(),
        }
    }

    /// How this reads in the title bar.
    ///
    /// The name rather than the commit: `origin/main` is what the user asked
    /// for and recognises, and a bare hash would make every project look alike.
    pub fn label(&self) -> (r: &str)
        ensures
            r@ == self.title(),
    {
        match self {
            Base::Head => "HEAD",
            Base::MergeBase { name, .. } => name.as_str(),
            Base::Revision { name, .. } => name.as_str(),
        }
    }

    /// Whether this is the ordinary working-tree-against-last-commit view.
    pub fn is_head(&self) -> (r: bool)
        ensures
            r == (self is Head),
    {
        match self {
            Base::Head => true,
            _ => false,
        }
    }
}

fn no_such_revision(name: &str) -> (r: GitError)
    ensures
        said("no such revision: "@ + name@, r),
{
    failure("no such revision: ".to_owned().concat(name))
}

/// The commit that a name resolves to, from what
/// `rev-parse --verify --quiet <name>^{commit} --` answered.
///
/// A failure of git says nothing on stderr for a name that is not a revision,
/// so it is named here. A missing git binary or a directory that is not a
/// repository is not about this name and is passed on.
pub fn rev_parse(name: &str, out: Result<Vec<u8>, GitError>) -> (r: Result<String, GitError>)
    ensures
        match out {
            Err(GitError::Failed { .. }) => r matches Err(e) && said(
                "no such revision: "@ + name@,
                e,
            ),
            Err(e) => r == Err::<String, GitError>(e),
            Ok(bytes) => if trimmed(lossy_text(bytes@)).len() == 0 {
                r matches Err(e) && said("no such revision: "@ + name@, e)
            } else {
                r matches Ok(commit) && commit@ == trimmed(lossy_text(bytes@))
            },
        },
{
    match out {
        Err(e) => match e {
            GitError::Failed { .. } => Err(no_such_revision(name)),
            other => Err(other),
        },
        Ok(bytes) => {
            let text = decode(bytes.as_slice());
            let commit = trim(text.as_str());
            if commit.is_empty() {
                Err(no_such_revision(name))
            } else {
                Ok(commit)
            }
        },
    }
}

/// Whether an answer is what becomes of a revision that the user named.
pub open spec fn is_revision(
    name: Seq<char>,
    out: Result<Vec<u8>, GitError>,
    r: Result<Base, GitError>,
) -> bool {
    match out {
        Err(GitError::Failed { .. }) => r matches Err(e) && said(
            "no such revision: "@ + name,
            e,
        ),
        Err(e) => r == Err::<Base, GitError>(e),
        Ok(bytes) => if trimmed(lossy_text(bytes@)).len() == 0 {
            r matches Err(e) && said("no such revision: "@ + name, e)
        } else {
            &&& r matches Ok(Base::Revision { name: n, commit })
            &&& n@ == name
            &&& commit@ == trimmed(lossy_text(bytes@))
        },
    }
}

/// Resolve a revision the user named into a base, or say why it cannot be.
///
/// `out` is what git answered for the name; see [`rev_parse`]. Resolution
/// happens before the diff, so a name that is not a revision is refused once
/// with a clear message instead of producing an empty diff for every file in
/// the project.
pub fn resolve(name: &str, out: Result<Vec<u8>, GitError>) -> (r: Result<Base, GitError>)
    ensures
        is_revision(name@, out, r),
{
    match rev_parse(name, out) {
        Err(e) => Err(e),
        Ok(commit) => Ok(Base::Revision { name: name.to_owned(), commit }),
    }
}

/// The upstream that a branch tracks, as a name rather than a commit, from what
/// `rev-parse --abbrev-ref --symbolic-full-name @{u}` answered.
///
/// `None` when the branch tracks nothing, which is not an error: plenty of
/// branches never get an upstream, and the default names cover them.
pub fn upstream_name(out: &Result<Vec<u8>, GitError>) -> (r: Option<String>)
    ensures
        text_view(r) == (match *out {
            Err(_) => None,
            Ok(bytes) => if trimmed(lossy_text(bytes@)).len() == 0 {
                None
            } else {
                Some(trimmed(lossy_text(bytes@)))
            },
        }),
{
    match out {
        Err(_) => None,
        Ok(bytes) => {
            let text = decode(bytes.as_slice());
            let name = trim(text.as_str());
            if name.is_empty() {
                None
            } else {
                Some(name)
            }
        },
    }
}

/// The names to try, in order of preference: the branch's own upstream, then
/// the usual default branches.
pub open spec fn candidate_names(upstream: Option<Seq<char>>) -> Seq<Seq<char>> {
    let defaults = seq!["origin/main"@, "origin/master"@, "main"@, "master"@];
    match upstream {
        Some(name) => seq![name] + defaults,
        None => defaults,
    }
}

/// The names to try for the branch that this one will merge into.
///
/// The branch's own upstream first — a branch that tracks something has already
/// said what it belongs to — and then the usual default branch names for the
/// common case of a local branch cut from one.
pub fn candidates(upstream: Option<String>) -> (r: Vec<String>)
    ensures
        texts(r@) == candidate_names(text_view(upstream)),
{
    let mut out: Vec<String> = Vec::new();
    let ghost up = text_view(upstream);
    if let Some(name) = upstream {
        out.push(name);
    }
    out.push("origin/main".to_owned());
    out.push("origin/master".to_owned());
    out.push("main".to_owned());
    out.push("master".to_owned());
    assert(texts(out@) =~= candidate_names(up));
    out
}

/// What git answered for one candidate.
pub struct Attempt {
    /// The candidate.
    pub name: String,
    /// Whether the name resolves: what `rev-parse` answered for it.
    pub resolved: Result<Vec<u8>, GitError>,
    /// Where the two histories meet: what `merge-base HEAD <name>` answered.
    pub meeting: Result<Vec<u8>, GitError>,
}

impl Attempt {
    /// The commit where the histories meet, if the candidate is there and has one.
    pub open spec fn fork(&self) -> Option<Seq<char>> {
        match (self.resolved, self.meeting) {
            (Ok(commit), Ok(bytes)) => if trimmed(lossy_text(commit@)).len() > 0 && trimmed(
                lossy_text(bytes@),
            ).len() > 0 {
                Some(trimmed(lossy_text(bytes@)))
            } else {
                None
            },
            _ => None,
        }
    }
}

/// The base that one candidate gives, if it gives one.
///
/// A name that does not resolve is simply not present in this repository, and
/// one with no common ancestor has nothing to compare: the next candidate is
/// the answer, not an error.
pub fn forked_at(attempt: &Attempt) -> (r: Option<Base>)
    ensures
        match attempt.fork() {
            Some(commit) => {
                &&& r matches Some(Base::MergeBase { name, commit: c })
                &&& name@ == attempt.name@
                &&& c@ == commit
            },
            None => r is None,
        },
{
    match (&attempt.resolved, &attempt.meeting) {
        (Ok(commit), Ok(bytes)) => {
            let resolved = decode(commit.as_slice());
            if trim(resolved.as_str()).is_empty() {
                return None;
            }
            let text = decode(bytes.as_slice());
            let commit = trim(text.as_str());
            if commit.is_empty() {
                return None;
            }
            Some(Base::MergeBase { name: attempt.name.clone(), commit })
        },
        _ => None,
    }
}

/// Whether none of the first `n` attempts gives a base.
pub open spec fn none_before(attempts: Seq<Attempt>, n: int) -> bool {
    forall|i: int| 0 <= i < n ==> (#[trigger] attempts[i]).fork() is None
}

/// Find where the current branch diverged from the branch it will merge into:
/// what the first candidate that gives a base gives.
pub fn merge_base(attempts: &Vec<Attempt>) -> (r: Result<Base, GitError>)
    ensures
        match r {
            Ok(base) => exists|i: int|
                0 <= i < attempts@.len() && none_before(attempts@, i) && (
                #[trigger] attempts@[i]).fork() is Some && (base matches Base::MergeBase {
                    name,
                    commit,
                } && name@ == attempts@[i].name@ && Some(commit@) == attempts@[i].fork()),
            Err(e) => none_before(attempts@, attempts@.len() as int) && said(
                "no upstream or default branch to compare against"@,
                e,
            ),
        },
{
    for i in 0..attempts.len()
        invariant
            none_before(attempts@, i as int),
    {
        if let Some(base) = forked_at(&attempts[i]) {
            return Ok(base);
        }
    }
    Err(failure("no upstream or default branch to compare against".to_owned()))
}

/// What git is given is the commit that was resolved, and what is shown is the name
/// that was asked for; the last commit goes by its own name.
pub proof fn a_base_is_shown_by_name_and_compared_by_commit(base: Base)
    ensures
        match base {
            Base::Head => base.revision() == "HEAD"@ && base.title() == "HEAD"@,
            Base::MergeBase { name, commit } => base.revision() == commit@ && base.title() == name@,
            Base::Revision { name, commit } => base.revision() == commit@ && base.title() == name@,
        },
{
}

/// The branch's own upstream is tried first, and then the usual names, the remote's
/// before the local ones.
pub proof fn the_upstream_is_tried_first(upstream: Option<Seq<char>>, i: int)
    requires
        0 <= i < 4,
    ensures
        ({
            let usual = seq!["origin/main"@, "origin/master"@, "main"@, "master"@];
            match upstream {
                Some(name) => candidate_names(upstream).len() == 5 && candidate_names(upstream)[0]
                    == name && candidate_names(upstream)[i + 1] == usual[i],
                None => candidate_names(upstream).len() == 4 && candidate_names(upstream)[i]
                    == usual[i],
            }
        }),
{
}

} // verus!
