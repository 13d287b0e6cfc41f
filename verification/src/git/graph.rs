//! The shape of the history: which commits came from where.
//!
//! # Two kinds of line
//!
//! This is the fact the parser is built around. `git log --graph` emits a
//! drawing, not a list. Some of its lines carry a commit:
//!
//! ```text
//! * <sha>\x00<short>\x00<author>\x00<time>\x00<subject>
//! ```
//!
//! and some carry only the lines connecting them:
//!
//! ```text
//! |\
//! |/
//! ```
//!
//! A parser that assumed one line per commit would invent entries out of the
//! connectors. So a [`Row`] is either a commit or a connector, and the cursor
//! is only ever allowed to land on the former: there is nothing to select on a
//! piece of drawn line.
//!
//! # Why git draws it rather than this module
//!
//! Laying out a commit graph is genuinely hard — lanes have to be assigned,
//! reused and reordered as branches merge. Git already does it, and asking for
//! its answer means the shape matches what `git log --graph` shows in the same
//! repository, which is what the reader has already learnt to read.

use vstd::prelude::*;
use vstd::string::*;

use crate::bytes::{decode, lossy_text};
use crate::git::history::{read_time, time_in};
use crate::git::run::GitError;
use crate::seqs::{index_of, split_on};
use crate::text::{
    chars_of, decimal, decimal_of, find_from, lines, lines_of, split, text_between, texts, trim,
    trim_end, trim_front, trimmed, trimmed_end,
};

verus! {

/// One line of the drawing.
#[derive(Debug, PartialEq, Eq)]
pub enum Row {
    /// A commit, with the drawing that precedes it on its line.
    Commit {
        /// The `* `, `| * ` or similar that git drew before the fields.
        ///
        /// Kept verbatim: it is what places this commit in its lane, and
        /// redrawing it would mean recomputing the layout git already did.
        rail: String,
        commit: String,
        short: String,
        author: String,
        author_time: i64,
        subject: String,
    },
    /// A line of the drawing with no commit on it — `|\`, `|/`, `| |`.
    ///
    /// Rendered so the branches join up visibly, but never selectable: there
    /// is no revision here to point a diff at.
    Connector { rail: String },
}

/// A line of the drawing, with its texts as characters.
pub enum RowView {
    Commit {
        rail: Seq<char>,
        commit: Seq<char>,
        short: Seq<char>,
        author: Seq<char>,
        author_time: i64,
        subject: Seq<char>,
    },
    Connector { rail: Seq<char> },
}

impl View for Row {
    type V = RowView;

    open spec fn view(&self) -> RowView {
        match self {
            Row::Commit { rail, commit, short, author, author_time, subject } => RowView::Commit {
                rail: rail@,
                commit: commit@,
                short: short@,
                author: author@,
                author_time: *author_time,
                subject: subject@,
            },
            Row::Connector { rail } => RowView::Connector { rail: rail@ },
        }
    }
}

impl Clone for Row {
    fn clone(&self) -> (r: Self)
        ensures
            r == *self,
    {
        match self {
            Row::Commit { rail, commit, short, author, author_time, subject } => Row::Commit {
                rail: rail.clone(),
                commit: commit.clone(),
                short: short.clone(),
                author: author.clone(),
                author_time: *author_time,
                subject: subject.clone(),
            },
            Row::Connector { rail } => Row::Connector { rail: rail.clone() },
        }
    }
}

impl Row {
    /// The drawing at the start of this line.
    pub open spec fn drawing(&self) -> Seq<char> {
        match self {
            Row::Commit { rail, .. } => rail@,
            Row::Connector { rail } => rail@,
        }
    }

    /// Whether the cursor may land here.
    pub fn is_commit(&self) -> (r: bool)
        ensures
            r == (self is Commit),
    {
        match self {
            Row::Commit { .. } => true,
            Row::Connector { .. } => false,
        }
    }

    /// The drawing at the start of this line.
    pub fn rail(&self) -> (r: &str)
        ensures
            r@ == self.drawing(),
    {
        match self {
            Row::Commit { rail, .. } => rail.as_str(),
            Row::Connector { rail } => rail.as_str(),
        }
    }
}

/// The position right behind the last `c`, or 0 without one.
pub open spec fn behind_last(s: Seq<char>, c: char) -> nat
    decreases s.len(),
{
    if s.len() == 0 {
        0
    } else if s.last() == c {
        s.len()
    } else {
        behind_last(s.drop_last(), c)
    }
}

/// Field `k`, or nothing where there are fewer.
pub open spec fn field_or_empty(fields: Seq<Seq<char>>, k: int) -> Seq<char> {
    if 0 <= k < fields.len() {
        fields[k]
    } else {
        Seq::empty()
    }
}

/// What one line of the drawing holds.
///
/// Only a commit's line carries NULs. Everything before the first one is the
/// drawing plus the commit, which is what follows the last space; the fields
/// come behind. A line without any is a connector, unless there is nothing on
/// it at all.
pub open spec fn row_in(line: Seq<char>) -> Option<RowView> {
    let nul = index_of(line, '\0');
    if nul < line.len() {
        let before = line.take(nul as int);
        let cut = behind_last(before, ' ');
        let fields = split_on(trim_front(line.skip(nul as int), |c: char| c == '\0'), '\0');
        Some(
            RowView::Commit {
                rail: before.take(cut as int),
                commit: before.skip(cut as int),
                short: field_or_empty(fields, 0),
                author: field_or_empty(fields, 1),
                author_time: time_in(field_or_empty(fields, 2)),
                subject: field_or_empty(fields, 3),
            },
        )
    } else if trimmed(trimmed_end(line)).len() == 0 {
        None
    } else {
        Some(RowView::Connector { rail: trimmed_end(line) })
    }
}

/// What the lines of the drawing hold.
pub open spec fn rows_in(lines: Seq<Seq<char>>) -> Seq<RowView>
    decreases lines.len(),
{
    if lines.len() == 0 {
        Seq::empty()
    } else {
        match row_in(lines[0]) {
            Some(row) => seq![row] + rows_in(lines.skip(1)),
            None => rows_in(lines.skip(1)),
        }
    }
}

/// The rows of a list, with their texts as characters.
pub open spec fn row_views(v: Seq<Row>) -> Seq<RowView> {
    v.map_values(|r: Row| r@)
}

/// The characters of an optional row's texts.
pub open spec fn row_view(o: Option<Row>) -> Option<RowView> {
    match o {
        Some(r) => Some(r@),
        None => None,
    }
}

fn nth(fields: &Vec<String>, k: usize) -> (r: String)
    ensures
        r@ == field_or_empty(texts(fields@), k as int),
{
    if k < fields.len() {
        fields[k].clone()
    } else {
        String::new()
    }
}

/// Read one line of the drawing.
///
/// Returns `None` for a line with nothing on it at all, which git emits as
/// trailing padding after a connector.
pub fn parse_line(line: &str) -> (r: Option<Row>)
    ensures
        row_view(r) == row_in(line@),
{
    let cs = chars_of(line);
    let nul: usize = find_from(&cs, 0, '\0');
    proof {
        assert(cs@.skip(0) =~= cs@);
    }
    if nul == cs.len() {
        let rail = trim_end(line);
        let inner = trim(rail.as_str());
        if inner.is_empty() {
            return None;
        }
        return Some(Row::Connector { rail });
    }
    let ghost before = line@.take(nul as int);
    let mut cut: usize = nul;
    assert(before.take(nul as int) =~= before);
    while cut > 0 && cs[cut - 1] != ' '
        invariant
            cs@ == line@,
            cut <= nul < cs@.len(),
            before == line@.take(nul as int),
            behind_last(before, ' ') == behind_last(before.take(cut as int), ' '),
        decreases cut,
    {
        assert(before.take(cut as int).drop_last() =~= before.take(cut - 1));
        cut -= 1;
    }
    let rail = text_between(&cs, 0, cut);
    let commit = text_between(&cs, cut, nul);
    proof {
        assert(rail@ =~= before.take(cut as int));
        assert(commit@ =~= before.skip(cut as int));
    }
    let ghost p = |c: char| c == '\0';
    let mut from: usize = nul;
    while from < cs.len() && cs[from] == '\0'
        invariant
            nul <= from <= cs@.len(),
            p == (|c: char| c == '\0'),
            trim_front(cs@.skip(nul as int), p) == trim_front(cs@.skip(from as int), p),
        decreases cs@.len() - from,
    {
        assert(cs@.skip(from as int).skip(1) =~= cs@.skip(from + 1));
        from += 1;
    }
    let rest = text_between(&cs, from, cs.len());
    assert(rest@ =~= cs@.skip(from as int));
    let fields = split(rest.as_str(), '\0');
    let time = nth(&fields, 2);
    Some(
        Row::Commit {
            rail,
            commit,
            short: nth(&fields, 0),
            author: nth(&fields, 1),
            author_time: read_time(time.as_str()),
            subject: nth(&fields, 3),
        },
    )
}

/// Parse the text of a `--graph` drawing into rows.
pub fn parse_text(text: &str) -> (r: Vec<Row>)
    ensures
        row_views(r@) == rows_in(lines_of(text@)),
{
    let all = lines(text);
    let ghost ls = lines_of(text@);
    let mut out: Vec<Row> = Vec::new();
    assert(ls.skip(0) =~= ls);
    assert(row_views(out@) =~= Seq::<RowView>::empty());
    for i in 0..all.len()
        invariant
            texts(all@) == ls,
            rows_in(ls) =~= row_views(out@) + rows_in(ls.skip(i as int)),
    {
        assert(ls.skip(i as int)[0] == all@[i as int]@);
        assert(ls.skip(i as int).skip(1) =~= ls.skip(i + 1));
        let ghost before = row_views(out@);
        if let Some(row) = parse_line(all[i].as_str()) {
            out.push(row);
            assert(row_views(out@) =~= before.push(row@));
        }
    }
    assert(texts(all@).len() == all@.len());
    assert(ls.skip(ls.len() as int) =~= Seq::<Seq<char>>::empty());
    out
}

/// Parse the `--graph` drawing into rows.
pub fn parse(buf: &[u8]) -> (r: Vec<Row>)
    ensures
        row_views(r@) == rows_in(lines_of(lossy_text(buf@))),
{
    let text = decode(buf);
    parse_text(text.as_str())
}

/// What git is asked for the recent history of the repository.
///
/// `max_commits` bounds how far back it reaches: the graph is a picture of
/// recent shape rather than a complete history, and the layout git computes
/// gets wider and harder to read the further back it goes.
pub fn arguments(max_commits: usize) -> (r: Vec<String>)
    ensures
        texts(r@) == seq![
            "log"@,
            "--graph"@,
            "-"@ + decimal_of(max_commits as nat),
            "--format=%H%x00%h%x00%an%x00%at%x00%s"@,
        ],
{
    let mut out: Vec<String> = Vec::new();
    let n = decimal(max_commits as u64);
    out.push("log".to_owned());
    out.push("--graph".to_owned());
    out.push("-".to_owned().concat(n.as_str()));
    out.push("--format=%H%x00%h%x00%an%x00%at%x00%s".to_owned());
    assert(texts(out@) =~= seq![
        "log"@,
        "--graph"@,
        "-"@ + decimal_of(max_commits as nat),
        "--format=%H%x00%h%x00%an%x00%at%x00%s"@,
    ]);
    out
}

/// The drawing of the recent history, from what git answered.
///
/// Empty when there is nothing to draw — a repository with no commits, or one
/// that cannot be read.
pub fn graph(out: &Result<Vec<u8>, GitError>) -> (r: Vec<Row>)
    ensures
        match *out {
            Ok(buf) => row_views(r@) == rows_in(lines_of(lossy_text(buf@))),
            Err(_) => r@.len() == 0,
        },
{
    match out {
        Ok(buf) => parse(buf.as_slice()),
        Err(_) => Vec::new(),
    }
}

} // verus!
