//! Who last touched each line, and when.
//!
//! # What blame can and cannot answer
//!
//! Blame is about committed history, and a diff is largely about what is not
//! committed yet. An added line has no author because nobody has recorded it;
//! a removed line's author is real but the line is on its way out. So this
//! answers for the lines that exist in the file as committed — context lines,
//! and the lines an added one sits between — and says nothing about the rest.
//!
//! Saying nothing is the point. A column that guessed, or that attributed an
//! uncommitted line to whoever last touched the line above it, would be
//! confidently wrong about exactly the lines under discussion.
//!
//! # The porcelain format
//!
//! `git blame --porcelain` emits, per line:
//!
//! ```text
//! <sha> <orig-line> <final-line> [<lines-in-group>]
//! author Ada Lovelace          <- only on the FIRST line of each commit's run
//! author-time 1785437209
//! summary the commit subject
//! ...
//! \t<the line's text>
//! ```
//!
//! The header fields appear **once per commit**, not once per line: every
//! later line attributed to the same commit gets the `<sha> ...` line and then
//! goes straight to the tab-prefixed text. A parser that expected an author on
//! every line would leave most of them blank, so commit details are
//! accumulated and looked up by sha.

use vstd::prelude::*;
use vstd::string::*;

use crate::bytes::{decode, lossy_text};
use crate::git::base::Base;
use crate::git::run::GitError;
use crate::seqs::{lemma_split_nonempty, split_on};
use crate::text::{
    chars_of, halves, i64_in, lines, lines_of, nat_upto, parse_i64, parse_usize, same, split,
    split_once, text_between, texts,
};

pub mod stream;

verus! {

/// Largest file this will blame, in lines.
///
/// Blame walks history per line and is the most expensive query here by a wide
/// margin. Past this the column stays empty rather than stalling the pane —
/// the same bargain the syntax highlighter makes with its size cap.
pub const MAX_LINES: usize = 50_000;

/// What is known about the commit that last touched a line.
#[derive(Debug, PartialEq, Eq)]
pub struct Attribution {
    /// The abbreviated commit, short enough to sit in a column.
    pub commit: String,
    pub author: String,
    /// When it was authored, as a Unix timestamp.
    ///
    /// Kept as an instant rather than a rendered age: the age is relative to
    /// now, and the viewer stays open.
    pub author_time: i64,
    /// The commit's subject line.
    pub summary: String,
    /// Whether the commit is not yet committed at all.
    ///
    /// Git attributes locally modified lines to an all-zero sha it calls "Not
    /// Committed Yet". That is worth distinguishing: it means "you, just now",
    /// not a real commit anybody could look up.
    pub uncommitted: bool,
}

/// What is known about a commit, with its texts as characters.
pub struct AttributionView {
    pub commit: Seq<char>,
    pub author: Seq<char>,
    pub author_time: i64,
    pub summary: Seq<char>,
    pub uncommitted: bool,
}

impl View for Attribution {
    type V = AttributionView;

    open spec fn view(&self) -> AttributionView {
        AttributionView {
            commit: self.commit@,
            author: self.author@,
            author_time: self.author_time,
            summary: self.summary@,
            uncommitted: self.uncommitted,
        }
    }
}

impl Clone for Attribution {
    fn clone(&self) -> (r: Self)
        ensures
            r == *self,
    {
        Attribution {
            commit: self.commit.clone(),
            author: self.author.clone(),
            author_time: self.author_time,
            summary: self.summary.clone(),
            uncommitted: self.uncommitted,
        }
    }
}

/// Who last touched each line of a file, indexed by line number minus one.
pub type Blame = Vec<Option<Attribution>>;

/// What is known of each line, with its texts as characters.
pub open spec fn blame_view(b: Seq<Option<Attribution>>) -> Seq<Option<AttributionView>> {
    b.map_values(
        |o: Option<Attribution>|
            match o {
                Some(a) => Some(a@),
                None => None::<AttributionView>,
            },
    )
}

/// An ASCII hexadecimal digit.
pub open spec fn is_hex(c: char) -> bool {
    '0' <= c <= '9' || 'a' <= c <= 'f' || 'A' <= c <= 'F'
}

/// Whether a token looks like the sha that opens a blame record: at least seven
/// hexadecimal digits and nothing else.
pub open spec fn looks_like_sha(token: Seq<char>) -> bool {
    token.len() >= 7 && forall|i: int| 0 <= i < token.len() ==> is_hex(#[trigger] token[i])
}

/// The first few characters of a sha, which is what fits in a column.
pub open spec fn short_sha(sha: Seq<char>) -> Seq<char> {
    if sha.len() > 7 {
        sha.take(7)
    } else {
        sha
    }
}

/// What is known of a commit from its sha alone. Git attributes
/// not-yet-committed lines to an all-zero sha.
pub open spec fn unheard_of(sha: Seq<char>) -> AttributionView {
    AttributionView {
        commit: short_sha(sha),
        author: Seq::empty(),
        author_time: 0,
        summary: Seq::empty(),
        uncommitted: forall|i: int| 0 <= i < sha.len() ==> #[trigger] sha[i] == '0',
    }
}

/// What has been read of a blame stream.
pub struct Reading {
    /// Commit details, as they are first seen.
    pub commits: Map<Seq<char>, AttributionView>,
    /// What is known of each line.
    pub lines: Seq<Option<AttributionView>>,
    /// The commit that is being described.
    pub current: Option<Seq<char>>,
    /// The number of the line that is being described, or 0.
    pub final_line: nat,
}

/// What is known of a commit: what was heard of it, or what its sha says.
pub open spec fn known(commits: Map<Seq<char>, AttributionView>, sha: Seq<char>) -> AttributionView {
    if commits.contains_key(sha) {
        commits[sha]
    } else {
        unheard_of(sha)
    }
}

/// What is known of a commit after one more header field.
pub open spec fn told(a: AttributionView, key: Seq<char>, value: Seq<char>) -> AttributionView {
    if key == "author"@ {
        AttributionView { author: value, ..a }
    } else if key == "author-time"@ {
        AttributionView {
            author_time: match i64_in(value) {
                Some(n) => n,
                None => 0,
            },
            ..a
        }
    } else if key == "summary"@ {
        AttributionView { summary: value, ..a }
    } else {
        a
    }
}

/// The lines with one put at a place, and nothing known of those before it that
/// were not there.
pub open spec fn put_line(
    lines: Seq<Option<AttributionView>>,
    at: int,
    a: AttributionView,
) -> Seq<Option<AttributionView>> {
    if at < lines.len() {
        lines.update(at, Some(a))
    } else {
        Seq::new(
            (at + 1) as nat,
            |i: int|
                if i < lines.len() {
                    lines[i]
                } else if i == at {
                    Some(a)
                } else {
                    None
                },
        )
    }
}

/// What has been read after one more line of the stream.
///
/// A tab opens the line's own text, which ends the record. While a commit is
/// being described, anything else is a header field of it. Otherwise the line
/// opens a record, if it starts with a sha.
pub open spec fn read_line(r: Reading, line: Seq<char>) -> Reading {
    if line.len() > 0 && line[0] == '\t' {
        match r.current {
            None => r,
            Some(sha) => if 0 < r.final_line <= MAX_LINES {
                Reading {
                    current: None,
                    lines: put_line(r.lines, r.final_line - 1, known(r.commits, sha)),
                    ..r
                }
            } else {
                Reading { current: None, ..r }
            },
        }
    } else {
        match r.current {
            Some(sha) => match halves(line, ' ') {
                Some((key, value)) => Reading {
                    commits: r.commits.insert(sha, told(known(r.commits, sha), key, value)),
                    ..r
                },
                None => r,
            },
            None => {
                let fields = split_on(line, ' ');
                if looks_like_sha(fields[0]) {
                    Reading {
                        commits: r.commits.insert(fields[0], known(r.commits, fields[0])),
                        lines: r.lines,
                        current: Some(fields[0]),
                        final_line: if fields.len() > 2 {
                            match nat_upto(fields[2], usize::MAX as nat) {
                                Some(n) => n,
                                None => 0,
                            }
                        } else {
                            0
                        },
                    }
                } else {
                    r
                }
            },
        }
    }
}

/// What has been read after some lines of the stream.
pub open spec fn read_lines(lines: Seq<Seq<char>>) -> Reading
    decreases lines.len(),
{
    if lines.len() == 0 {
        Reading {
            commits: Map::empty(),
            lines: Seq::empty(),
            current: None,
            final_line: 0,
        }
    } else {
        read_line(read_lines(lines.drop_last()), lines.last())
    }
}

/// What a blame stream says of each line.
pub open spec fn blame_in(text: Seq<char>) -> Seq<Option<AttributionView>> {
    read_lines(lines_of(text)).lines
}

/// However large the numbers in a stream, no more than [`MAX_LINES`] lines are
/// answered for.
pub proof fn blame_is_capped(lines: Seq<Seq<char>>)
    ensures
        read_lines(lines).lines.len() <= MAX_LINES,
    decreases lines.len(),
{
    if lines.len() > 0 {
        blame_is_capped(lines.drop_last());
    }
}

fn is_sha(token: &str) -> (r: bool)
    ensures
        r == looks_like_sha(token@),
{
    let cs = chars_of(token);
    if cs.len() < 7 {
        return false;
    }
    for i in 0..cs.len()
        invariant
            cs@ == token@,
            forall|j: int| 0 <= j < i ==> is_hex(#[trigger] cs@[j]),
    {
        let c: char = cs[i];
        if !(('0' <= c && c <= '9') || ('a' <= c && c <= 'f') || ('A' <= c && c <= 'F')) {
            return false;
        }
    }
    true
}

fn fresh(sha: &str) -> (r: Attribution)
    ensures
        r@ == unheard_of(sha@),
{
    let cs = chars_of(sha);
    let to: usize = if cs.len() > 7 {
        7
    } else {
        cs.len()
    };
    let commit = text_between(&cs, 0, to);
    assert(commit@ =~= short_sha(sha@));
    let mut uncommitted: bool = true;
    for i in 0..cs.len()
        invariant
            cs@ == sha@,
            uncommitted == forall|j: int| 0 <= j < i ==> #[trigger] cs@[j] == '0',
    {
        if cs[i] != '0' {
            uncommitted = false;
        }
    }
    Attribution {
        commit,
        author: String::new(),
        author_time: 0,
        summary: String::new(),
        uncommitted,
    }
}

/// Whether the entries hold what the map holds, each commit once.
spec fn holds(entries: Seq<(String, Attribution)>, m: Map<Seq<char>, AttributionView>) -> bool {
    &&& forall|i: int|
        0 <= i < entries.len() ==> m.contains_key((#[trigger] entries[i]).0@) && m[entries[i].0@]
            == entries[i].1@
    &&& forall|k: Seq<char>| #[trigger]
        m.contains_key(k) ==> exists|i: int| 0 <= i < entries.len() && (#[trigger] entries[i]).0@ == k
    &&& forall|i: int, j: int|
        0 <= i < j < entries.len() ==> (#[trigger] entries[i]).0@ != (#[trigger] entries[j]).0@
}

/// Finds a commit, putting in what its sha says where it is not there.
fn find_or_add(
    entries: &mut Vec<(String, Attribution)>,
    sha: &String,
    m: Ghost<Map<Seq<char>, AttributionView>>,
) -> (r: usize)
    requires
        holds(old(entries)@, m@),
    ensures
        r < final(entries)@.len(),
        final(entries)@[r as int].0@ == sha@,
        final(entries)@[r as int].1@ == known(m@, sha@),
        holds(final(entries)@, m@.insert(sha@, known(m@, sha@))),
{
    for i in 0..entries.len()
        invariant
            *entries == *old(entries),
            holds(entries@, m@),
            forall|j: int| 0 <= j < i ==> (#[trigger] entries@[j]).0@ != sha@,
    {
        if entries[i].0 == *sha {
            proof {
                assert(m@.insert(sha@, known(m@, sha@)) =~= m@);
            }
            return i;
        }
    }
    let at: usize = entries.len();
    let a = fresh(sha.as_str());
    entries.push((sha.clone(), a));
    proof {
        let n = m@.insert(sha@, known(m@, sha@));
        assert(!m@.contains_key(sha@));
        assert forall|k: Seq<char>| #[trigger] n.contains_key(k) implies exists|i: int|
            0 <= i < entries@.len() && (#[trigger] entries@[i]).0@ == k by {
            if k == sha@ {
                assert(entries@[at as int].0@ == k);
            } else {
                assert(m@.contains_key(k));
                let i = choose|i: int| 0 <= i < old(entries)@.len() && (#[trigger] old(
                    entries,
                )@[i]).0@ == k;
                assert(entries@[i].0@ == k);
            }
        }
    }
    at
}

/// Parse `git blame --porcelain` text into one entry per line.
#[verifier::rlimit(40)]
pub fn parse_text(text: &str) -> (r: Blame)
    ensures
        blame_view(r@) == blame_in(text@),
{
    let all = lines(text);
    let ghost ls = lines_of(text@);
    let mut commits: Vec<(String, Attribution)> = Vec::new();
    let mut out: Blame = Vec::new();
    let mut current: Option<String> = None;
    let mut final_line: usize = 0;
    proof {
        assert(ls.take(0) =~= Seq::<Seq<char>>::empty());
        assert(blame_view(out@) =~= Seq::<Option<AttributionView>>::empty());
    }
    for i in 0..all.len()
        invariant
            texts(all@) == ls,
            holds(commits@, read_lines(ls.take(i as int)).commits),
            blame_view(out@) == read_lines(ls.take(i as int)).lines,
            match current {
                Some(sha) => read_lines(ls.take(i as int)).current == Some(sha@),
                None => read_lines(ls.take(i as int)).current is None,
            },
            final_line == read_lines(ls.take(i as int)).final_line,
    {
        let ghost state = read_lines(ls.take(i as int));
        proof {
            assert(ls.take(i + 1).drop_last() =~= ls.take(i as int));
            assert(ls.take(i + 1).last() == all@[i as int]@);
        }
        let line = &all[i];
        let cs = chars_of(line.as_str());
        if cs.len() > 0 && cs[0] == '\t' {
            if let Some(sha) = current {
                let at: usize = find_or_add(&mut commits, &sha, Ghost(state.commits));
                let a = commits[at].1.clone();
                proof {
                    lemma_current_known(ls.take(i as int));
                    assert(state.commits.insert(sha@, known(state.commits, sha@)) =~= state.commits);
                }
                if final_line > 0 && final_line - 1 < MAX_LINES {
                    set_line(&mut out, final_line - 1, a);
                }
                current = None;
            }
        } else if let Some(sha) = &current {
            if let Some((key, value)) = split_once(line.as_str(), ' ') {
                let at: usize = find_or_add(&mut commits, sha, Ghost(state.commits));
                let ghost m = state.commits.insert(sha@, known(state.commits, sha@));
                let ghost before = commits@;
                let old_one = commits[at].1.clone();
                let new_one = tell(old_one, key.as_str(), value);
                let name = sha.clone();
                commits.set(at, (name, new_one));
                proof {
                    let n = state.commits.insert(sha@, told(known(state.commits, sha@), key@, value@));
                    lemma_holds_update(before, m, at as int, sha@, commits@, new_one@);
                    assert(m.insert(sha@, new_one@) =~= n);
                }
            }
        } else {
            let fields = split(line.as_str(), ' ');
            proof {
                lemma_split_nonempty(line@, ' ');
                assert(texts(fields@).len() == fields@.len());
                assert(texts(fields@)[0] == fields@[0]@);
            }
            if is_sha(fields[0].as_str()) {
                final_line = 0;
                if fields.len() > 2 {
                    assert(texts(fields@)[2] == fields@[2]@);
                    if let Some(n) = parse_usize(fields[2].as_str()) {
                        final_line = n;
                    }
                }
                let sha = fields[0].clone();
                let _at: usize = find_or_add(&mut commits, &sha, Ghost(state.commits));
                current = Some(sha);
            }
        }
    }
    assert(ls.take(ls.len() as int) =~= ls);
    out
}

proof fn lemma_holds_update(
    before: Seq<(String, Attribution)>,
    m: Map<Seq<char>, AttributionView>,
    at: int,
    sha: Seq<char>,
    after: Seq<(String, Attribution)>,
    value: AttributionView,
)
    requires
        holds(before, m),
        0 <= at < before.len(),
        before[at].0@ == sha,
        after.len() == before.len(),
        after[at].0@ == sha,
        after[at].1@ == value,
        forall|i: int| 0 <= i < before.len() && i != at ==> after[i] == before[i],
    ensures
        holds(after, m.insert(sha, value)),
{
    let n = m.insert(sha, value);
    assert forall|i: int| 0 <= i < after.len() implies n.contains_key((#[trigger] after[i]).0@)
        && n[after[i].0@] == after[i].1@ by {
        if i != at {
            assert(after[i] == before[i]);
            if i < at {
                assert(before[i].0@ != before[at].0@);
            } else {
                assert(before[at].0@ != before[i].0@);
            }
        }
    }
    assert forall|k: Seq<char>| #[trigger] n.contains_key(k) implies exists|i: int|
        0 <= i < after.len() && (#[trigger] after[i]).0@ == k by {
        if k == sha {
            assert(after[at].0@ == k);
        } else {
            assert(m.contains_key(k));
            let i = choose|i: int| 0 <= i < before.len() && (#[trigger] before[i]).0@ == k;
            assert(after[i].0@ == k);
        }
    }
    assert forall|i: int, j: int| 0 <= i < j < after.len() implies (#[trigger] after[i]).0@ != (
    #[trigger] after[j]).0@ by {
        assert(before[i].0@ != before[j].0@);
    }
}

/// The commit being described is one that has been heard of.
proof fn lemma_current_known(lines: Seq<Seq<char>>)
    ensures
        read_lines(lines).current matches Some(sha) ==> read_lines(lines).commits.contains_key(sha),
    decreases lines.len(),
{
    if lines.len() > 0 {
        lemma_current_known(lines.drop_last());
    }
}

fn tell(a: Attribution, key: &str, value: String) -> (r: Attribution)
    ensures
        r@ == told(a@, key@, value@),
{
    let mut a = a;
    if same(key, "author") {
        a.author = value;
    } else if same(key, "author-time") {
        a.author_time = match parse_i64(value.as_str()) {
            Some(n) => n,
            None => 0,
        };
    } else if same(key, "summary") {
        a.summary = value;
    }
    a
}

fn set_line(out: &mut Blame, at: usize, a: Attribution)
    requires
        at < MAX_LINES,
    ensures
        blame_view(final(out)@) == put_line(blame_view(old(out)@), at as int, a@),
{
    let ghost start = blame_view(out@);
    while out.len() <= at
        invariant
            start.len() <= out@.len(),
            out@.len() <= start.len() || out@.len() <= at + 1,
            forall|i: int| 0 <= i < start.len() ==> #[trigger] blame_view(out@)[i] == start[i],
            forall|i: int| start.len() <= i < out@.len() ==> (#[trigger] out@[i]) is None,
            at < MAX_LINES,
        decreases at + 1 - out@.len(),
    {
        let ghost before = out@;
        out.push(None);
        assert forall|i: int| 0 <= i < start.len() implies #[trigger] blame_view(out@)[i]
            == start[i] by {
            assert(blame_view(before)[i] == start[i]);
            assert(out@[i] == before[i]);
        }
    }
    let ghost before = out@;
    out.set(at, Some(a));
    proof {
        assert forall|i: int| 0 <= i < out@.len() implies #[trigger] blame_view(out@)[i]
            == put_line(start, at as int, a@)[i] by {
            if i != at {
                assert(out@[i] == before[i]);
                if i < start.len() {
                    assert(blame_view(before)[i] == start[i]);
                }
            }
        }
        assert(blame_view(out@) =~= put_line(start, at as int, a@));
    }
}

/// Parse `git blame --porcelain` output into one entry per line.
pub fn parse(buf: &[u8]) -> (r: Blame)
    ensures
        blame_view(r@) == blame_in(lossy_text(buf@)),
{
    let text = decode(buf);
    parse_text(text.as_str())
}

/// What git is asked in order to blame a file as it stands.
///
/// The base decides which *commits* count as history, so that a branch view
/// does not attribute a line to a commit the reader is currently reviewing —
/// the interesting answer there is who wrote it before the branch started.
/// With `-w` a line moved within the file, or brought in from another one, is
/// attributed to where it came from rather than to whoever moved it.
pub fn arguments(path: &str, base: &Base) -> (r: Vec<String>)
    ensures
        texts(r@) == (if base is Head {
            seq!["blame"@, "--porcelain"@, "-w"@, "--"@, path@]
        } else {
            seq!["blame"@, "--porcelain"@, "-w"@, base.revision(), "--"@, path@]
        }),
{
    let mut out: Vec<String> = Vec::new();
    out.push("blame".to_owned());
    out.push("--porcelain".to_owned());
    out.push("-w".to_owned());
    if !base.is_head() {
        out.push(base.rev().to_owned());
    }
    out.push("--".to_owned());
    out.push(path.to_owned());
    assert(texts(out@) =~= (if base is Head {
        seq!["blame"@, "--porcelain"@, "-w"@, "--"@, path@]
    } else {
        seq!["blame"@, "--porcelain"@, "-w"@, base.revision(), "--"@, path@]
    }));
    out
}

/// The blame of a file, from what git answered, or nothing if it cannot be
/// blamed.
///
/// Failure is silent: a file with no history, a path that has been deleted, a
/// repository mid-rebase. An empty column is what the viewer shows without
/// blame.
pub fn blame(out: &Result<Vec<u8>, GitError>) -> (r: Blame)
    ensures
        match *out {
            Ok(buf) => blame_view(r@) == blame_in(lossy_text(buf@)),
            Err(_) => r@.len() == 0,
        },
{
    match out {
        Ok(buf) => parse(buf.as_slice()),
        Err(_) => Vec::new(),
    }
}

} // verus!
