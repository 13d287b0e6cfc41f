//! What a run of git came to.

use vstd::prelude::*;
use vstd::string::*;

use crate::bytes::{decode, lossy_text};
use crate::text::{
    chars_of, contains, decimal_i32, decimal_int, glue, has_text, text_between, trim, trimmed,
    trim_back,
};

verus! {

/// Why git gave no answer.
#[derive(Debug, PartialEq, Eq)]
pub enum GitError {
    /// `git` is not on PATH.
    NotInstalled,
    /// The directory is not inside a git worktree.
    NotARepository,
    /// Git ran but exited non-zero.
    Failed { status: Option<i32>, stderr: String },
    /// Git could not be run, and what the system said about it.
    Io(String),
}

impl Clone for GitError {
    fn clone(&self) -> (r: Self)
        ensures
            r == *self,
    {
        match self {
            GitError::NotInstalled => GitError::NotInstalled,
            GitError::NotARepository => GitError::NotARepository,
            GitError::Failed { status, stderr } => GitError::Failed {
                status: *status,
                stderr: stderr.clone(),
            },
            GitError::Io(e) => GitError::Io(e.clone()),
        }
    }
}

/// How git exited, in words.
pub open spec fn exit_text(status: Option<i32>) -> Seq<char> {
    match status {
        Some(code) => decimal_int(code as int),
        None => "signal"@,
    }
}

impl GitError {
    /// The error in words.
    pub open spec fn text(&self) -> Seq<char> {
        match self {
            GitError::NotInstalled => "git not found in PATH — strays needs the git binary"@,
            GitError::NotARepository => "not a git repository — open strays inside a worktree"@,
            GitError::Failed { status, stderr } => if trimmed(stderr@).len() == 0 {
                "git exited with status "@ + exit_text(*status)
            } else {
                "git failed ("@ + exit_text(*status) + "): "@ + trimmed(stderr@)
            },
            GitError::Io(e) => "could not run git: "@ + e@,
        }
    }

    /// The error in words.
    pub fn message(&self) -> (r: String)
        ensures
            r@ == self.text(),
    {
        match self {
            GitError::NotInstalled => "git not found in PATH — strays needs the git binary".to_owned(),
            GitError::NotARepository => "not a git repository — open strays inside a worktree".to_owned(),
            GitError::Failed { status, stderr } => {
                let code = match status {
                    Some(c) => decimal_i32(*c),
                    None => "signal".to_owned(),
                };
                let detail = trim(stderr.as_str());
                if detail.is_empty() {
                    "git exited with status ".to_owned().concat(code.as_str())
                } else {
                    let lead = glue("git failed (", code.as_str(), "): ");
                    lead.concat(detail.as_str())
                }
            },
            GitError::Io(e) => "could not run git: ".to_owned().concat(e.as_str()),
        }
    }
}

/// A failure that has only words to it.
pub open spec fn said(words: Seq<char>, e: GitError) -> bool {
    e matches GitError::Failed { status, stderr } && status is None && stderr@ == words
}

/// A failure that has only words to it.
pub fn failure(words: String) -> (r: GitError)
    ensures
        said(words@, r),
{
    GitError::Failed { status: None, stderr: words }
}

/// What a finished run of git answered: its output where it succeeded, else why
/// it did not.
///
/// Bytes, not text: git paths are not guaranteed to be UTF-8, and
/// `--porcelain=v2 -z` output is NUL-separated.
pub fn answered(success: bool, code: Option<i32>, stdout: Vec<u8>, stderr: &[u8]) -> (r: Result<
    Vec<u8>,
    GitError,
>)
    ensures
        success ==> r == Ok::<Vec<u8>, GitError>(stdout),
        !success && has_text(lossy_text(stderr@), "not a git repository"@) ==> r == Err::<
            Vec<u8>,
            GitError,
        >(GitError::NotARepository),
        !success && !has_text(lossy_text(stderr@), "not a git repository"@) ==> {
            &&& r matches Err(GitError::Failed { status, stderr: words })
            &&& status == code
            &&& words@ == lossy_text(stderr@)
        },
{
    if success {
        return Ok(stdout);
    }
    let words = decode(stderr);
    if contains(words.as_str(), "not a git repository") {
        return Err(GitError::NotARepository);
    }
    Err(GitError::Failed { status: code, stderr: words })
}

/// The path that git printed: its output without the line ending.
pub open spec fn printed_path(text: Seq<char>) -> Seq<char> {
    trim_back(text, |c: char| c == '\n' || c == '\r')
}

/// The path in a text that git printed.
pub fn path_printed(text: &str) -> (r: String)
    ensures
        r@ == printed_path(text@),
{
    let cs = chars_of(text);
    let ghost p = |c: char| c == '\n' || c == '\r';
    let mut to: usize = cs.len();
    assert(cs@.take(cs@.len() as int) =~= cs@);
    while to > 0 && (cs[to - 1] == '\n' || cs[to - 1] == '\r')
        invariant
            to <= cs@.len(),
            p == (|c: char| c == '\n' || c == '\r'),
            trim_back(cs@, p) == trim_back(cs@.take(to as int), p),
        decreases to,
    {
        assert(cs@.take(to as int).drop_last() =~= cs@.take(to - 1));
        to -= 1;
    }
    text_between(&cs, 0, to)
}

/// The top level of a worktree, from what `rev-parse --show-toplevel` answered.
pub fn repo_root(out: Result<Vec<u8>, GitError>) -> (r: Result<String, GitError>)
    ensures
        match out {
            Err(e) => r == Err::<String, GitError>(e),
            Ok(bytes) => if printed_path(lossy_text(bytes@)).len() == 0 {
                r == Err::<String, GitError>(GitError::NotARepository)
            } else {
                r matches Ok(path) && path@ == printed_path(lossy_text(bytes@))
            },
        },
{
    match out {
        Err(e) => Err(e),
        Ok(bytes) => {
            let text = decode(bytes.as_slice());
            let path = path_printed(text.as_str());
            if path.is_empty() {
                Err(GitError::NotARepository)
            } else {
                Ok(path)
            }
        },
    }
}

} // verus!
