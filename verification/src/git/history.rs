//! The commits that touched one file.
//!
//! # Why `--follow`
//!
//! A file's history usually predates its current path. Without `--follow` a
//! renamed file appears to have been created at the rename, which hides exactly
//! the history worth reading — and a rename is the moment you are most likely
//! to go looking.
//!
//! # Why a machine format rather than the default log
//!
//! `git log`'s human output wraps, indents, and localises. This asks for
//! NUL-separated fields instead, so a commit subject containing a newline — or
//! a `-`, or anything else that looks like structure — cannot be mistaken for
//! the record boundary.
//!
//! # What an entry is for
//!
//! Selecting one sets the diff's base to that commit's parent, so the pane
//! shows what the commit did to the file. That is why [`Entry`] carries the
//! commit itself rather than a rendered line: the list is a way to reach a
//! revision, not a report to read and dismiss.

use vstd::prelude::*;
use vstd::string::*;

use crate::bytes::{decode, field_text, lossy_text, slices, split_bytes, text_of_field, NUL};
use crate::git::base::{resolve, Base};
use crate::git::run::{failure, said, GitError};
use crate::seqs::split_on;
use crate::text::{decimal, decimal_of, i64_in, parse_i64, texts, trim, trimmed};

verus! {

/// One commit that touched the file.
#[derive(Debug, PartialEq, Eq)]
pub struct Entry {
    /// The full commit, which is what a diff is taken against.
    pub commit: String,
    /// The abbreviated commit, which is what the list shows.
    pub short: String,
    pub author: String,
    /// When it was authored, as a Unix timestamp.
    ///
    /// An instant rather than a rendered age, for the same reason as in
    /// [`crate::git::blame`]: the age is relative to now and the viewer stays
    /// open.
    pub author_time: i64,
    /// The commit's subject line.
    pub subject: String,
}

/// A commit, with its texts as characters.
pub struct EntryView {
    pub commit: Seq<char>,
    pub short: Seq<char>,
    pub author: Seq<char>,
    pub author_time: i64,
    pub subject: Seq<char>,
}

impl View for Entry {
    type V = EntryView;

    open spec fn view(&self) -> EntryView {
        EntryView {
            commit: self.commit@,
            short: self.short@,
            author: self.author@,
            author_time: self.author_time,
            subject: self.subject@,
        }
    }
}

impl Clone for Entry {
    fn clone(&self) -> (r: Self)
        ensures
            r == *self,
    {
        Entry {
            commit: self.commit.clone(),
            short: self.short.clone(),
            author: self.author.clone(),
            author_time: self.author_time,
            subject: self.subject.clone(),
        }
    }
}

impl Entry {
    /// What to diff against to see what this commit did.
    ///
    /// The commit's first parent. A root commit has no parent, so this is the
    /// one case the caller has to handle: there is nothing before it to compare
    /// against.
    pub fn parent(&self) -> (r: String)
        ensures
            r@ == self.commit@ + "^"@,
    {
        self.commit.clone().concat("^")
    }
}

/// The number that a field spells, or 0.
pub open spec fn time_in(s: Seq<char>) -> i64 {
    match i64_in(s) {
        Some(n) => n,
        None => 0,
    }
}

/// The number that a text spells, or 0.
pub fn read_time(s: &str) -> (r: i64)
    ensures
        r == time_in(s@),
{
    match parse_i64(s) {
        Some(n) => n,
        None => 0,
    }
}

/// The commits that the fields describe, five fields each. A record without a
/// commit describes none, and fields that break off before the fifth are left
/// out.
pub open spec fn entries_in(fields: Seq<Seq<u8>>) -> Seq<EntryView>
    decreases fields.len(),
{
    if fields.len() < 5 {
        Seq::empty()
    } else {
        let rest = entries_in(fields.skip(5));
        if field_text(fields[0]).len() == 0 {
            rest
        } else {
            seq![
                EntryView {
                    commit: field_text(fields[0]),
                    short: field_text(fields[1]),
                    author: field_text(fields[2]),
                    author_time: time_in(field_text(fields[3])),
                    subject: field_text(fields[4]),
                },
            ] + rest
        }
    }
}

/// The commits of a list, with their texts as characters.
pub open spec fn entry_views(v: Seq<Entry>) -> Seq<EntryView> {
    v.map_values(|e: Entry| e@)
}

/// Parse the NUL-separated log stream into entries.
pub fn parse(buf: &[u8]) -> (r: Vec<Entry>)
    ensures
        entry_views(r@) == entries_in(split_on(buf@, NUL)),
{
    let fields = split_bytes(buf, NUL);
    let ghost all = split_on(buf@, NUL);
    let mut out: Vec<Entry> = Vec::new();
    let mut at: usize = 0;
    assert(all.skip(0) =~= all);
    assert(entry_views(out@) =~= Seq::<EntryView>::empty());
    while fields.len() - at >= 5
        invariant
            slices(fields@) == all,
            at <= fields@.len(),
            entries_in(all) =~= entry_views(out@) + entries_in(all.skip(at as int)),
        decreases fields@.len() - at,
    {
        let ghost rest = all.skip(at as int);
        proof {
            assert(rest.skip(5) =~= all.skip(at + 5));
            assert forall|k: int| 0 <= k < 5 implies #[trigger] rest[k] == fields@[at + k]@ by {}
            assert(rest[0] == fields@[at + 0]@ && rest[1] == fields@[at + 1]@ && rest[2]
                == fields@[at + 2]@ && rest[3] == fields@[at + 3]@ && rest[4] == fields@[at + 4]@);
        }
        let commit = text_of_field(fields[at]);
        if !commit.is_empty() {
            let time = text_of_field(fields[at + 3]);
            let e = Entry {
                commit,
                short: text_of_field(fields[at + 1]),
                author: text_of_field(fields[at + 2]),
                author_time: read_time(time.as_str()),
                subject: text_of_field(fields[at + 4]),
            };
            let ghost before = entry_views(out@);
            out.push(e);
            assert(entry_views(out@) =~= before.push(e@));
        }
        at = at + 5;
    }
    out
}

/// What git is asked for the commits that touched `path`, most recent first and
/// no more than `max_commits`: a long-lived file can have thousands, and nobody
/// scrolls that far in a side pane.
///
/// The fields are NUL-separated: full commit, abbreviated commit, author name,
/// author timestamp, subject. The trailing NUL closes the last field so every
/// record has the same shape.
pub fn arguments(path: &str, max_commits: usize) -> (r: Vec<String>)
    ensures
        texts(r@) == seq![
            "log"@,
            "--follow"@,
            "-"@ + decimal_of(max_commits as nat),
            "--format=%H%x00%h%x00%an%x00%at%x00%s%x00"@,
            "--"@,
            path@,
        ],
{
    let mut out: Vec<String> = Vec::new();
    let n = decimal(max_commits as u64);
    out.push("log".to_owned());
    out.push("--follow".to_owned());
    out.push("-".to_owned().concat(n.as_str()));
    out.push("--format=%H%x00%h%x00%an%x00%at%x00%s%x00".to_owned());
    out.push("--".to_owned());
    out.push(path.to_owned());
    assert(texts(out@) =~= seq![
        "log"@,
        "--follow"@,
        "-"@ + decimal_of(max_commits as nat),
        "--format=%H%x00%h%x00%an%x00%at%x00%s%x00"@,
        "--"@,
        path@,
    ]);
    out
}

/// The commits that touched a file, from what git answered.
///
/// Empty rather than an error when the file has no history — untracked, or
/// newly added — because that is a state to render rather than a failure to
/// report. A file nobody has committed simply has nothing to show.
pub fn history(out: &Result<Vec<u8>, GitError>) -> (r: Vec<Entry>)
    ensures
        match *out {
            Ok(buf) => entry_views(r@) == entries_in(split_on(buf@, NUL)),
            Err(_) => r@.len() == 0,
        },
{
    match out {
        Ok(buf) => parse(buf.as_slice()),
        Err(_) => Vec::new(),
    }
}

/// Whether git's answer names a parent.
pub open spec fn names_parent(out: Result<Vec<u8>, GitError>) -> bool {
    match out {
        Ok(bytes) => trimmed(lossy_text(bytes@)).len() > 0,
        Err(_) => false,
    }
}

/// Whether a commit has a parent to be compared against, from what
/// `rev-parse --verify --quiet <commit>^` answered.
///
/// A root commit does not, and asking git to diff against `<root>^` fails
/// rather than showing the file's creation.
pub fn has_parent(out: &Result<Vec<u8>, GitError>) -> (r: bool)
    ensures
        r == names_parent(*out),
{
    match out {
        Ok(bytes) => {
            let text = decode(bytes.as_slice());
            !trim(text.as_str()).is_empty()
        },
        Err(_) => false,
    }
}

/// Whether an answer is the base for an entry of the list.
pub open spec fn is_base_for(
    entry: Entry,
    parent: Result<Vec<u8>, GitError>,
    resolved: Result<Vec<u8>, GitError>,
    r: Result<Base, GitError>,
) -> bool {
    if !names_parent(parent) {
        r matches Err(e) && said(entry.short@ + " is the first commit — nothing before it"@, e)
    } else {
        match resolved {
            Err(GitError::Failed { .. }) => r matches Err(e) && said(
                "no such revision: "@ + (entry.commit@ + "^"@),
                e,
            ),
            Err(e) => r == Err::<Base, GitError>(e),
            Ok(bytes) => if trimmed(lossy_text(bytes@)).len() == 0 {
                r matches Err(e) && said("no such revision: "@ + (entry.commit@ + "^"@), e)
            } else {
                &&& r matches Ok(Base::Revision { name, commit })
                &&& name@ == entry.commit@ + "^"@
                &&& commit@ == trimmed(lossy_text(bytes@))
            },
        }
    }
}

/// What a history entry should be diffed against.
///
/// `parent` is what git answered about the commit's parent, and `resolved` what
/// it resolved [`Entry::parent`] to. A root commit is refused with a reason
/// rather than silently showing nothing: the file was created there, and "no
/// parent" is the honest answer.
pub fn base_for(
    entry: &Entry,
    parent: &Result<Vec<u8>, GitError>,
    resolved: Result<Vec<u8>, GitError>,
) -> (r: Result<Base, GitError>)
    ensures
        is_base_for(*entry, *parent, resolved, r),
{
    if !has_parent(parent) {
        return Err(
            failure(entry.short.clone().concat(" is the first commit — nothing before it")),
        );
    }
    let name = entry.parent();
    resolve(name.as_str(), resolved)
}

} // verus!
