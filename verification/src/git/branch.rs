//! The branches in a repository, and a way to compare against one.
//!
//! # What this adds over the project row
//!
//! The project row already names the current branch and how far it has drifted
//! from its upstream. That answers "where am I". This answers two questions it
//! cannot: what else is here, and what have I got that some *other* branch has
//! not.
//!
//! # Why `for-each-ref` rather than `branch -vv`
//!
//! `git branch` formats for people: it pads columns, marks the current branch
//! with a `*` in a fixed position, and puts the upstream inside square brackets
//! in the subject line. Every one of those is a parsing hazard. `for-each-ref`
//! takes a format string, so each field arrives on its own and a branch name or
//! commit subject cannot be mistaken for structure.
//!
//! # Comparing against a branch
//!
//! The merge base, not the branch tip — the same reasoning as in
//! [`crate::git::base`]. Comparing against the tip of a branch that has moved
//! on would report its commits as though this branch had reverted them.

use vstd::prelude::*;
use vstd::string::*;

use crate::bytes::{decode, field_text, lossy_text, slices, split_bytes, text_of_field, NUL};
use crate::git::base::Base;
use crate::git::history::{read_time, time_in};
use crate::git::run::{failure, said, GitError};
use crate::model::Upstream;
use crate::seqs::split_on;
use crate::text::{
    after_prefix, before_suffix, nat_upto, parse_usize, same, split, strip_prefix, strip_suffix,
    text_view, texts, trim, trimmed,
};

verus! {

/// One branch.
#[derive(Debug, PartialEq, Eq)]
pub struct Branch {
    pub name: String,
    /// The commit it points at, abbreviated for display.
    pub short: String,
    pub author: String,
    /// When it last moved, as a Unix timestamp.
    ///
    /// The *committer* date rather than the author date: a rebased or
    /// cherry-picked branch keeps its original author date, which would make a
    /// branch touched this morning look months old.
    pub committed: i64,
    /// The upstream it tracks, if any.
    pub upstream: Option<String>,
    /// How far it has drifted from that upstream.
    ///
    /// `None` when it tracks nothing — which is a different answer from being
    /// level with an upstream, and must not read as "pushed".
    pub track: Option<Upstream>,
    /// Whether this is the branch currently checked out.
    pub current: bool,
    /// The subject of the commit it points at.
    pub subject: String,
}

/// A branch, with its texts as characters.
pub struct BranchView {
    pub name: Seq<char>,
    pub short: Seq<char>,
    pub author: Seq<char>,
    pub committed: i64,
    pub upstream: Option<Seq<char>>,
    pub track: Option<Upstream>,
    pub current: bool,
    pub subject: Seq<char>,
}

impl View for Branch {
    type V = BranchView;

    open spec fn view(&self) -> BranchView {
        BranchView {
            name: self.name@,
            short: self.short@,
            author: self.author@,
            committed: self.committed,
            upstream: text_view(self.upstream),
            track: self.track,
            current: self.current,
            subject: self.subject@,
        }
    }
}

impl Clone for Branch {
    fn clone(&self) -> (r: Self)
        ensures
            r@ == self@,
    {
        let upstream = match &self.upstream {
            Some(u) => Some(u.clone()),
            None => None,
        };
        Branch {
            name: self.name.clone(),
            short: self.short.clone(),
            author: self.author.clone(),
            committed: self.committed,
            upstream,
            track: self.track,
            current: self.current,
            subject: self.subject.clone(),
        }
    }
}

/// A count, or 0 for what is none.
pub open spec fn count_in(s: Seq<char>) -> usize {
    match nat_upto(trimmed(s), usize::MAX as nat) {
        Some(n) => n as usize,
        None => 0,
    }
}

/// What the parts between the commas say: the last `ahead` and the last
/// `behind` count.
pub open spec fn drift(parts: Seq<Seq<char>>) -> Upstream
    decreases parts.len(),
{
    if parts.len() == 0 {
        Upstream { ahead: 0, behind: 0 }
    } else {
        let before = drift(parts.drop_last());
        let part = trimmed(parts.last());
        match (after_prefix(part, "ahead "@), after_prefix(part, "behind "@)) {
            (Some(n), _) => Upstream { ahead: count_in(n), ..before },
            (None, Some(n)) => Upstream { behind: count_in(n), ..before },
            (None, None) => before,
        }
    }
}

/// What `%(upstream:track)` says: the counts inside its square brackets, or
/// nothing without them.
///
/// `[gone]` — an upstream that has been deleted — counts zero both ways rather
/// than being mistaken for a count.
pub open spec fn track_in(track: Seq<char>) -> Option<Upstream> {
    match after_prefix(trimmed(track), seq!['[']) {
        Some(rest) => match before_suffix(rest, seq![']']) {
            Some(inner) => Some(drift(split_on(inner, ','))),
            None => None,
        },
        None => None,
    }
}

fn read_count(s: &str) -> (r: usize)
    ensures
        r == count_in(s@),
{
    let t = trim(s);
    match parse_usize(t.as_str()) {
        Some(n) => n,
        None => 0,
    }
}

/// Read `%(upstream:track)`, which git renders as `[ahead 3, behind 1]`.
///
/// Empty when the branch tracks nothing, and also when it is exactly level —
/// git prints nothing in both cases. They are told apart by whether an upstream
/// was named at all, which is why the caller pairs this with that field.
pub fn parse_track(track: &str) -> (r: Option<Upstream>)
    ensures
        r == track_in(track@),
{
    let whole = trim(track);
    let mut open = String::new();
    open.push('[');
    let mut close = String::new();
    close.push(']');
    assert(open@ =~= seq!['[']);
    assert(close@ =~= seq![']']);
    let rest = match strip_prefix(whole.as_str(), open.as_str()) {
        Some(rest) => rest,
        None => {
            return None;
        },
    };
    let inner = match strip_suffix(rest.as_str(), close.as_str()) {
        Some(inner) => inner,
        None => {
            return None;
        },
    };
    let parts = split(inner.as_str(), ',');
    let ghost all = split_on(inner@, ',');
    let mut ahead: usize = 0;
    let mut behind: usize = 0;
    assert(all.take(0) =~= Seq::<Seq<char>>::empty());
    for i in 0..parts.len()
        invariant
            texts(parts@) == all,
            drift(all.take(i as int)) == (Upstream { ahead, behind }),
    {
        proof {
            assert(all.take(i + 1).drop_last() =~= all.take(i as int));
            assert(all.take(i + 1).last() == parts@[i as int]@);
        }
        let part = trim(parts[i].as_str());
        if let Some(n) = strip_prefix(part.as_str(), "ahead ") {
            ahead = read_count(n.as_str());
        } else if let Some(n) = strip_prefix(part.as_str(), "behind ") {
            behind = read_count(n.as_str());
        }
    }
    assert(texts(parts@).len() == parts@.len());
    assert(all.take(all.len() as int) =~= all);
    Some(Upstream { ahead, behind })
}

/// How far a branch has drifted from the upstream that was named: level with it
/// where no distance is printed, and no answer where none was named.
pub open spec fn drift_from(upstream: Seq<char>, track: Seq<char>) -> Option<Upstream> {
    if upstream.len() == 0 {
        None
    } else {
        match track_in(track) {
            Some(t) => Some(t),
            None => Some(Upstream { ahead: 0, behind: 0 }),
        }
    }
}

/// The branches that the fields describe, eight fields each. A record without a
/// name describes none, and fields that break off before the eighth are left
/// out.
pub open spec fn branches_in(fields: Seq<Seq<u8>>) -> Seq<BranchView>
    decreases fields.len(),
{
    if fields.len() < 8 {
        Seq::empty()
    } else {
        let rest = branches_in(fields.skip(8));
        if field_text(fields[0]).len() == 0 {
            rest
        } else {
            seq![
                BranchView {
                    name: field_text(fields[0]),
                    short: field_text(fields[1]),
                    author: field_text(fields[2]),
                    committed: time_in(field_text(fields[3])),
                    upstream: if field_text(fields[4]).len() == 0 {
                        None
                    } else {
                        Some(field_text(fields[4]))
                    },
                    track: drift_from(field_text(fields[4]), field_text(fields[5])),
                    current: field_text(fields[6]) == "*"@,
                    subject: field_text(fields[7]),
                },
            ] + rest
        }
    }
}

/// The branches of a list, with their texts as characters.
pub open spec fn branch_views(v: Seq<Branch>) -> Seq<BranchView> {
    v.map_values(|b: Branch| b@)
}

/// Parse the NUL-separated `for-each-ref` stream.
pub fn parse(buf: &[u8]) -> (r: Vec<Branch>)
    ensures
        branch_views(r@) == branches_in(split_on(buf@, NUL)),
{
    let fields = split_bytes(buf, NUL);
    let ghost all = split_on(buf@, NUL);
    let mut out: Vec<Branch> = Vec::new();
    let mut at: usize = 0;
    assert(all.skip(0) =~= all);
    assert(branch_views(out@) =~= Seq::<BranchView>::empty());
    while fields.len() - at >= 8
        invariant
            slices(fields@) == all,
            at <= fields@.len(),
            branches_in(all) =~= branch_views(out@) + branches_in(all.skip(at as int)),
        decreases fields@.len() - at,
    {
        let ghost rest = all.skip(at as int);
        proof {
            assert(rest.skip(8) =~= all.skip(at + 8));
            assert(rest[0] == fields@[at + 0]@ && rest[1] == fields@[at + 1]@ && rest[2]
                == fields@[at + 2]@ && rest[3] == fields@[at + 3]@ && rest[4] == fields@[at + 4]@
                && rest[5] == fields@[at + 5]@ && rest[6] == fields@[at + 6]@ && rest[7]
                == fields@[at + 7]@);
        }
        let name = text_of_field(fields[at]);
        if !name.is_empty() {
            let time = text_of_field(fields[at + 3]);
            let named = text_of_field(fields[at + 4]);
            let track = text_of_field(fields[at + 5]);
            let mark = text_of_field(fields[at + 6]);
            let (upstream, track) = if named.is_empty() {
                (None, None)
            } else {
                let drift = match parse_track(track.as_str()) {
                    Some(t) => t,
                    None => Upstream { ahead: 0, behind: 0 },
                };
                (Some(named), Some(drift))
            };
            let b = Branch {
                name,
                short: text_of_field(fields[at + 1]),
                author: text_of_field(fields[at + 2]),
                committed: read_time(time.as_str()),
                upstream,
                track,
                current: same(mark.as_str(), "*"),
                subject: text_of_field(fields[at + 7]),
            };
            let ghost before = branch_views(out@);
            out.push(b);
            assert(branch_views(out@) =~= before.push(b@));
        }
        at = at + 8;
    }
    out
}

/// A branch says how far it has drifted exactly where it says from what: being
/// level with an upstream is an answer, and tracking nothing is none.
pub proof fn drift_is_from_an_upstream(fields: Seq<Seq<u8>>, i: int)
    requires
        0 <= i < branches_in(fields).len(),
    ensures
        branches_in(fields)[i].track is Some <==> branches_in(fields)[i].upstream is Some,
    decreases fields.len(),
{
    let rest = branches_in(fields.skip(8));
    if field_text(fields[0]).len() == 0 {
        drift_is_from_an_upstream(fields.skip(8), i);
    } else if i > 0 {
        assert(branches_in(fields)[i] == rest[i - 1]);
        drift_is_from_an_upstream(fields.skip(8), i - 1);
    }
}

/// What git is asked for every local branch, most recently committed to first.
///
/// Local branches only: a repository with many remotes has hundreds of
/// remote-tracking refs, and the question — "what am I working on, and what
/// have I left behind" — is about the branches here. `%(HEAD)` is `*` for the
/// checked-out branch and a space otherwise.
pub fn arguments() -> (r: Vec<String>)
    ensures
        texts(r@) == seq![
            "for-each-ref"@,
            "--format=%(refname:short)%00%(objectname:short)%00%(authorname)%00%(committerdate:unix)%00%(upstream:short)%00%(upstream:track)%00%(HEAD)%00%(contents:subject)%00"@,
            "--sort=-committerdate"@,
            "refs/heads/"@,
        ],
{
    let mut out: Vec<String> = Vec::new();
    out.push("for-each-ref".to_owned());
    out.push(
        "--format=%(refname:short)%00%(objectname:short)%00%(authorname)%00%(committerdate:unix)%00%(upstream:short)%00%(upstream:track)%00%(HEAD)%00%(contents:subject)%00".to_owned(),
    );
    out.push("--sort=-committerdate".to_owned());
    out.push("refs/heads/".to_owned());
    assert(texts(out@) =~= seq![
        "for-each-ref"@,
        "--format=%(refname:short)%00%(objectname:short)%00%(authorname)%00%(committerdate:unix)%00%(upstream:short)%00%(upstream:track)%00%(HEAD)%00%(contents:subject)%00"@,
        "--sort=-committerdate"@,
        "refs/heads/"@,
    ]);
    out
}

/// Every local branch, most recently committed to first, from what git answered.
pub fn list(out: &Result<Vec<u8>, GitError>) -> (r: Vec<Branch>)
    ensures
        match *out {
            Ok(buf) => branch_views(r@) == branches_in(split_on(buf@, NUL)),
            Err(_) => r@.len() == 0,
        },
{
    match out {
        Ok(buf) => parse(buf.as_slice()),
        Err(_) => Vec::new(),
    }
}

/// Whether an answer is the base for an entry of the list.
pub open spec fn is_base_for(
    branch: Branch,
    out: Result<Vec<u8>, GitError>,
    r: Result<Base, GitError>,
) -> bool {
    if branch.current {
        r matches Err(e) && said(branch.name@ + " is the branch you are on"@, e)
    } else {
        match out {
            Err(e) => r == Err::<Base, GitError>(e),
            Ok(bytes) => if trimmed(lossy_text(bytes@)).len() == 0 {
                r matches Err(e) && said("no common history with "@ + branch.name@, e)
            } else {
                &&& r matches Ok(Base::MergeBase { name, commit })
                &&& name@ == branch.name@
                &&& commit@ == trimmed(lossy_text(bytes@))
            },
        }
    }
}

/// What to diff against to see what this branch does not have.
///
/// The merge base with the named branch, from what
/// `merge-base HEAD <name> --` answered, so the answer is "what is on my branch
/// and not on that one" rather than every difference between two diverged
/// histories.
///
/// Comparing the current branch against itself has an empty answer; that is
/// refused with a reason rather than shown as a clean worktree.
pub fn base_for(branch: &Branch, out: Result<Vec<u8>, GitError>) -> (r: Result<Base, GitError>)
    ensures
        is_base_for(*branch, out, r),
{
    if branch.current {
        return Err(failure(branch.name.clone().concat(" is the branch you are on")));
    }
    match out {
        Err(e) => Err(e),
        Ok(bytes) => {
            let text = decode(bytes.as_slice());
            let commit = trim(text.as_str());
            if commit.is_empty() {
                return Err(
                    failure("no common history with ".to_owned().concat(branch.name.as_str())),
                );
            }
            Ok(Base::MergeBase { name: branch.name.clone(), commit })
        },
    }
}

} // verus!
