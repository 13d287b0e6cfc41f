//! What has been set aside.
//!
//! # A stash is a commit
//!
//! That is the fact this module is built on. `stash@{0}` names a real commit
//! object, so showing what is in a stash needs no new machinery: the diff can
//! be taken against it exactly as against any other revision, and everything
//! already built on that — syntax highlighting, search, annotations — applies
//! unchanged.
//!
//! # Read-only, like everything else here
//!
//! `stash list` and `stash show` are queries. Nothing in this module applies,
//! pops or drops a stash: restoring work is a decision with consequences the
//! viewer cannot take back.
//!
//! # What a stash is compared against
//!
//! The commit it was taken from — its first parent. A stash records the
//! worktree as it stood, so diffing it against its parent is what isolates the
//! change that was set aside rather than the whole file.

use vstd::prelude::*;
use vstd::string::*;

use crate::bytes::{field_text, lossy_text, slices, split_bytes, text_of_field, NUL};
use crate::git::base::{resolve, Base};
use crate::git::history::{read_time, time_in};
use crate::git::run::{said, GitError};
use crate::seqs::split_on;
use crate::text::{
    after_prefix, chars_of, find_text_from, first_at, strip_prefix, text_between, text_view, texts,
    trimmed,
};

verus! {

/// One entry on the stash stack.
#[derive(Debug, PartialEq, Eq)]
pub struct Entry {
    /// How git names this entry — `stash@{0}`.
    ///
    /// Kept because it is what the reader recognises, but never what git is
    /// given: the selector is positional and shifts when the stack changes.
    pub selector: String,
    /// The commit this stash is.
    ///
    /// What a diff is actually taken against. A selector would be wrong the
    /// moment anything is pushed or dropped in another terminal; a commit is
    /// the same object forever.
    pub commit: String,
    pub short: String,
    pub author: String,
    pub author_time: i64,
    /// What the stash was about.
    ///
    /// Git prefixes its own reflog subjects with `On <branch>: ` or
    /// `WIP on <branch>: `; that is stripped, because the branch is already
    /// on screen and the message is what distinguishes one entry from another.
    pub message: String,
}

/// A stash, with its texts as characters.
pub struct StashView {
    pub selector: Seq<char>,
    pub commit: Seq<char>,
    pub short: Seq<char>,
    pub author: Seq<char>,
    pub author_time: i64,
    pub message: Seq<char>,
}

impl View for Entry {
    type V = StashView;

    open spec fn view(&self) -> StashView {
        StashView {
            selector: self.selector@,
            commit: self.commit@,
            short: self.short@,
            author: self.author@,
            author_time: self.author_time,
            message: self.message@,
        }
    }
}

impl Clone for Entry {
    fn clone(&self) -> (r: Self)
        ensures
            r == *self,
    {
        Entry {
            selector: self.selector.clone(),
            commit: self.commit.clone(),
            short: self.short.clone(),
            author: self.author.clone(),
            author_time: self.author_time,
            message: self.message.clone(),
        }
    }
}

impl Entry {
    /// What to diff against to see what this stash holds.
    ///
    /// The stash's first parent — the commit the worktree stood on when the
    /// work was set aside.
    pub fn parent(&self) -> (r: String)
        ensures
            r@ == self.commit@ + "^"@,
    {
        self.commit.clone().concat("^")
    }
}

/// What follows the first `: ` behind a prefix, if a subject has both.
pub open spec fn behind_branch(subject: Seq<char>, prefix: Seq<char>) -> Option<Seq<char>> {
    match after_prefix(subject, prefix) {
        Some(rest) => match first_at(rest, ": "@, 0) {
            Some(i) => Some(rest.skip(i + 2)),
            None => None,
        },
        None => None,
    }
}

/// A stash's subject without git's own `On <branch>: ` or `WIP on <branch>: `.
pub open spec fn message_in(subject: Seq<char>) -> Seq<char> {
    match behind_branch(subject, "WIP on "@) {
        Some(message) => message,
        None => match behind_branch(subject, "On "@) {
            Some(message) => message,
            None => subject,
        },
    }
}

fn after_branch(subject: &str, prefix: &str) -> (r: Option<String>)
    ensures
        text_view(r) == behind_branch(subject@, prefix@),
{
    let rest = match strip_prefix(subject, prefix) {
        Some(rest) => rest,
        None => {
            return None;
        },
    };
    let cs = chars_of(rest.as_str());
    let mark = chars_of(": ");
    proof {
        reveal_strlit(": ");
    }
    match find_text_from(&cs, &mark, 0) {
        Some(i) => {
            let message = text_between(&cs, i + 2, cs.len());
            assert(message@ =~= rest@.skip(i + 2));
            Some(message)
        },
        None => None,
    }
}

/// Remove git's own `On <branch>: ` or `WIP on <branch>: ` prefix.
///
/// The branch is already shown beside the project, and repeating it on every
/// entry would push the part that differs off the end of the line. Only the
/// first `: ` ends the branch name; the rest belongs to the message.
pub fn strip_branch(subject: &str) -> (r: String)
    ensures
        r@ == message_in(subject@),
{
    match after_branch(subject, "WIP on ") {
        Some(message) => message,
        None => match after_branch(subject, "On ") {
            Some(message) => message,
            None => subject.to_owned(),
        },
    }
}

/// The stashes that the fields describe, six fields each. A record without a
/// selector describes none, and fields that break off before the sixth are left
/// out.
pub open spec fn stashes_in(fields: Seq<Seq<u8>>) -> Seq<StashView>
    decreases fields.len(),
{
    if fields.len() < 6 {
        Seq::empty()
    } else {
        let rest = stashes_in(fields.skip(6));
        if field_text(fields[0]).len() == 0 {
            rest
        } else {
            seq![
                StashView {
                    selector: field_text(fields[0]),
                    commit: field_text(fields[1]),
                    short: field_text(fields[2]),
                    author: field_text(fields[3]),
                    author_time: time_in(field_text(fields[4])),
                    message: message_in(field_text(fields[5])),
                },
            ] + rest
        }
    }
}

/// The stashes of a list, with their texts as characters.
pub open spec fn stash_views(v: Seq<Entry>) -> Seq<StashView> {
    v.map_values(|e: Entry| e@)
}

/// Parse the NUL-separated stash list.
pub fn parse(buf: &[u8]) -> (r: Vec<Entry>)
    ensures
        stash_views(r@) == stashes_in(split_on(buf@, NUL)),
{
    let fields = split_bytes(buf, NUL);
    let ghost all = split_on(buf@, NUL);
    let mut out: Vec<Entry> = Vec::new();
    let mut at: usize = 0;
    assert(all.skip(0) =~= all);
    assert(stash_views(out@) =~= Seq::<StashView>::empty());
    while fields.len() - at >= 6
        invariant
            slices(fields@) == all,
            at <= fields@.len(),
            stashes_in(all) =~= stash_views(out@) + stashes_in(all.skip(at as int)),
        decreases fields@.len() - at,
    {
        let ghost rest = all.skip(at as int);
        proof {
            assert(rest.skip(6) =~= all.skip(at + 6));
            assert(rest[0] == fields@[at + 0]@ && rest[1] == fields@[at + 1]@ && rest[2]
                == fields@[at + 2]@ && rest[3] == fields@[at + 3]@ && rest[4] == fields@[at + 4]@
                && rest[5] == fields@[at + 5]@);
        }
        let selector = text_of_field(fields[at]);
        if !selector.is_empty() {
            let time = text_of_field(fields[at + 4]);
            let subject = text_of_field(fields[at + 5]);
            let e = Entry {
                selector,
                commit: text_of_field(fields[at + 1]),
                short: text_of_field(fields[at + 2]),
                author: text_of_field(fields[at + 3]),
                author_time: read_time(time.as_str()),
                message: strip_branch(subject.as_str()),
            };
            let ghost before = stash_views(out@);
            out.push(e);
            assert(stash_views(out@) =~= before.push(e@));
        }
        at = at + 6;
    }
    out
}

/// What git is asked for the stash stack, newest first.
///
/// `%gd` is the selector — `stash@{0}` — which is how the entry is named back
/// to git. `%gs` is the reflog subject, which carries the message.
pub fn arguments() -> (r: Vec<String>)
    ensures
        texts(r@) == seq![
            "stash"@,
            "list"@,
            "--format=%gd%x00%H%x00%h%x00%an%x00%at%x00%gs%x00"@,
        ],
{
    let mut out: Vec<String> = Vec::new();
    out.push("stash".to_owned());
    out.push("list".to_owned());
    out.push("--format=%gd%x00%H%x00%h%x00%an%x00%at%x00%gs%x00".to_owned());
    assert(texts(out@) =~= seq![
        "stash"@,
        "list"@,
        "--format=%gd%x00%H%x00%h%x00%an%x00%at%x00%gs%x00"@,
    ]);
    out
}

/// Everything currently on the stash stack, newest first, from what git
/// answered.
///
/// Empty when there is nothing stashed, which is the ordinary case rather than
/// a failure.
pub fn list(out: &Result<Vec<u8>, GitError>) -> (r: Vec<Entry>)
    ensures
        match *out {
            Ok(buf) => stash_views(r@) == stashes_in(split_on(buf@, NUL)),
            Err(_) => r@.len() == 0,
        },
{
    match out {
        Ok(buf) => parse(buf.as_slice()),
        Err(_) => Vec::new(),
    }
}

/// Whether an answer is the base for an entry of the list.
pub open spec fn is_base_for(
    entry: Entry,
    resolved: Result<Vec<u8>, GitError>,
    r: Result<Base, GitError>,
) -> bool {
    match resolved {
        Err(GitError::Failed { .. }) => r matches Err(e) && said(
            "no such revision: "@ + (entry.commit@ + "^"@),
            e,
        ),
        Err(e) => r == Err::<Base, GitError>(e),
        Ok(bytes) => if trimmed(lossy_text(bytes@)).len() == 0 {
            r matches Err(e) && said("no such revision: "@ + (entry.commit@ + "^"@), e)
        } else {
            &&& r matches Ok(Base::Revision { name, commit })
            &&& name@ == entry.selector@
            &&& commit@ == trimmed(lossy_text(bytes@))
        },
    }
}

/// What to diff against to show a stash's contents.
///
/// `resolved` is what git resolved [`Entry::parent`] to, so the answer cannot
/// drift if the stack changes while the viewer is open. Labelled by the
/// selector rather than by the parent commit: `stash@{0}` is what the reader
/// asked for and what the title bar should say.
pub fn base_for(entry: &Entry, resolved: Result<Vec<u8>, GitError>) -> (r: Result<Base, GitError>)
    ensures
        is_base_for(*entry, resolved, r),
{
    let parent = entry.parent();
    match resolve(parent.as_str(), resolved) {
        Err(e) => Err(e),
        Ok(base) => match base {
            Base::Revision { commit, .. } => Ok(
                Base::Revision { name: entry.selector.clone(), commit },
            ),
            other => Ok(other),
        },
    }
}

} // verus!
