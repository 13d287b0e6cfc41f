//! Diff of a single stray.
//!
//! Working tree against a commit, covering staged, unstaged and untracked
//! changes.

use vstd::prelude::*;
use vstd::string::*;

use crate::bytes::{decode, lossy_text, NUL};
use crate::git::run::GitError;
use crate::model::{line_views, read_as, Diff, DiffLine, DiffView, Stray, StrayStatus};
use crate::text::{contains, has_text, lines, lines_of, starts_with, texts};

pub mod shown;

verus! {

/// Number of leading bytes inspected when sniffing an untracked file for NULs.
pub const BINARY_SNIFF_BYTES: usize = 8000;

/// What `git diff` printed, as a diff: nothing for no output, and no text where
/// git says that the files are binary.
pub open spec fn tracked_diff(text: Seq<char>) -> DiffView {
    if has_text(text, "\nBinary files "@) || "Binary files "@.is_prefix_of(text) {
        DiffView::Binary
    } else if lines_of(text).len() == 0 {
        DiffView::Empty
    } else {
        DiffView::Text(lines_of(text).map_values(|l: Seq<char>| read_as(l)))
    }
}

fn read_all(all: &Vec<String>, out: &mut Vec<DiffLine>)
    ensures
        line_views(final(out)@) == line_views(old(out)@) + texts(all@).map_values(
            |l: Seq<char>| read_as(l),
        ),
{
    let ghost start = line_views(out@);
    let ghost more = texts(all@).map_values(|l: Seq<char>| read_as(l));
    for i in 0..all.len()
        invariant
            more == texts(all@).map_values(|l: Seq<char>| read_as(l)),
            line_views(out@) =~= start + more.take(i as int),
    {
        let line = DiffLine::parse(all[i].as_str());
        let ghost before = line_views(out@);
        out.push(line);
        assert(line_views(out@) =~= before.push(line@));
        assert(more[i as int] == line@);
    }
    assert(more.take(more.len() as int) =~= more);
}

/// What `git diff` printed, as a diff.
pub fn read_diff(text: &str) -> (r: Diff)
    ensures
        r@ == tracked_diff(text@),
{
    if contains(text, "\nBinary files ") || starts_with(text, "Binary files ") {
        return Diff::Binary;
    }
    let all = lines(text);
    assert(texts(all@).len() == all@.len());
    if all.len() == 0 {
        return Diff::Empty;
    }
    let mut out: Vec<DiffLine> = Vec::new();
    read_all(&all, &mut out);
    assert(line_views(out@) =~= lines_of(text@).map_values(|l: Seq<char>| read_as(l)));
    Diff::Text(out)
}

/// Whether a NUL stands among the first few thousand bytes, which is how git
/// itself decides "binary".
pub open spec fn is_binary(bytes: Seq<u8>) -> bool {
    exists|i: int| 0 <= i < bytes.len() && i < BINARY_SNIFF_BYTES && #[trigger] bytes[i] == NUL
}

fn looks_binary(bytes: &[u8]) -> (r: bool)
    ensures
        r == is_binary(bytes@),
{
    let mut i: usize = 0;
    while i < bytes.len() && i < BINARY_SNIFF_BYTES
        invariant
            i <= bytes@.len(),
            i <= BINARY_SNIFF_BYTES,
            forall|j: int| 0 <= j < i ==> #[trigger] bytes@[j] != NUL,
        decreases bytes@.len() - i,
    {
        if bytes[i] == NUL {
            return true;
        }
        i += 1;
    }
    false
}

/// An untracked file as an all-additions diff: a header that names it, and each
/// of its lines added.
pub open spec fn untracked_diff(path: Seq<char>, text: Seq<char>) -> DiffView {
    if lines_of(text).len() == 0 {
        DiffView::Empty
    } else {
        DiffView::Text(
            seq![read_as("--- /dev/null"@), read_as("+++ b/"@ + path)] + lines_of(text).map_values(
                |l: Seq<char>| read_as(seq!['+'] + l),
            ),
        )
    }
}

/// An untracked file as an all-additions diff.
pub fn all_added(path: &str, text: &str) -> (r: Diff)
    ensures
        r@ == untracked_diff(path@, text@),
{
    let all = lines(text);
    assert(texts(all@).len() == all@.len());
    if all.len() == 0 {
        return Diff::Empty;
    }
    let ghost more = lines_of(text@).map_values(|l: Seq<char>| read_as(seq!['+'] + l));
    let ghost head = seq![read_as("--- /dev/null"@), read_as("+++ b/"@ + path@)];
    let mut out: Vec<DiffLine> = Vec::new();
    out.push(DiffLine::parse("--- /dev/null"));
    let named = "+++ b/".to_owned().concat(path);
    out.push(DiffLine::parse(named.as_str()));
    assert(line_views(out@) =~= head);
    for i in 0..all.len()
        invariant
            texts(all@) == lines_of(text@),
            more == lines_of(text@).map_values(|l: Seq<char>| read_as(seq!['+'] + l)),
            line_views(out@) =~= head + more.take(i as int),
    {
        let mut added = String::new();
        added.push('+');
        added.append(all[i].as_str());
        assert(added@ =~= seq!['+'] + all@[i as int]@);
        let line = DiffLine::parse(added.as_str());
        let ghost before = line_views(out@);
        out.push(line);
        assert(line_views(out@) =~= before.push(line@));
        assert(texts(all@)[i as int] == all@[i as int]@);
        assert(more[i as int] == line@);
    }
    assert(more.take(more.len() as int) =~= more);
    Diff::Text(out)
}

/// The diff for one stray.
///
/// `printed` is what `git diff <base> -- <path>` answered, and `contents` the
/// bytes of the file, where it could be read. Git's diff says nothing about an
/// untracked file, so that one is shown as added whole; a file that vanished
/// meanwhile is empty, and a refresh will catch up. Of a deleted file git still
/// prints a full removal; the marker stands in only when it has nothing to say.
pub fn diff_for(
    stray: &Stray,
    printed: Result<Vec<u8>, GitError>,
    contents: Option<Vec<u8>>,
) -> (r: Result<Diff, GitError>)
    ensures
        stray.status is Untracked ==> (r matches Ok(diff) && diff@ == (match contents {
            None => DiffView::Empty,
            Some(bytes) => if is_binary(bytes@) {
                DiffView::Binary
            } else {
                untracked_diff(stray.path@, lossy_text(bytes@))
            },
        })),
        !(stray.status is Untracked) ==> match printed {
            Err(e) => r == Err::<Diff, GitError>(e),
            Ok(out) => {
                let diff = if out@.len() == 0 {
                    DiffView::Empty
                } else {
                    tracked_diff(lossy_text(out@))
                };
                r matches Ok(d) && d@ == if stray.status is Deleted && diff is Empty {
                    DiffView::Deleted
                } else {
                    diff
                }
            },
        },
{
    match &stray.status {
        StrayStatus::Untracked => match contents {
            None => Ok(Diff::Empty),
            Some(bytes) => {
                if looks_binary(bytes.as_slice()) {
                    return Ok(Diff::Binary);
                }
                let text = decode(bytes.as_slice());
                Ok(all_added(stray.path.as_str(), text.as_str()))
            },
        },
        status => match printed {
            Err(e) => Err(e),
            Ok(out) => {
                let diff = if out.len() == 0 {
                    Diff::Empty
                } else {
                    let text = decode(out.as_slice());
                    read_diff(text.as_str())
                };
                match (status, diff) {
                    (StrayStatus::Deleted, Diff::Empty) => Ok(Diff::Deleted),
                    (_, other) => Ok(other),
                }
            },
        },
    }
}

} // verus!
