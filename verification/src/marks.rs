//! Markers a writer left behind in the lines they are adding.
//!
//! `TODO`, `FIXME`, `HACK`, `XXX` — the notes people write to themselves and
//! then push. Reading them off the diff costs nothing: the text is already
//! parsed and in memory, so this asks no subprocess and crosses no network.
//!
//! # Only what is being added
//!
//! Marks are counted on added lines alone. A `TODO` sitting in a context line
//! is somebody else's, probably years old, and flagging it would mean every
//! diff near old debt looked like new debt. A mark on a *removed* line is
//! debt being paid off, and reporting that as a warning would punish the fix.
//!
//! # A count, not a verdict
//!
//! What this produces is how many, and of which kind. Whether that is bad is
//! the reader's call — plenty of good commits add a `TODO` on purpose.

use vstd::prelude::*;
use vstd::string::*;

use crate::model::{Diff, DiffLine, DiffLineKind};
use crate::seqs::join_with;
use crate::text::{alphanumeric, chars_of, decimal, decimal_of, join, occurs_at, stands_at, texts};

pub mod counting;

verus! {

/// The kinds of marker worth counting separately.
///
/// Deliberately short. Every project has its own vocabulary, and a list long
/// enough to cover all of them would match prose by accident: `NOTE` and
/// `WARNING` appear in ordinary sentences far more often than as markers.
#[derive(Debug, Clone, Copy, PartialEq, Eq, PartialOrd, Ord, Structural)]
pub enum Mark {
    /// Work deferred.
    Todo,
    /// Something known to be wrong.
    Fixme,
    /// Something known to be ugly.
    Hack,
    /// Something the writer could not explain.
    Xxx,
}

/// The word as it is written in code.
pub open spec fn mark_word(mark: Mark) -> Seq<char> {
    match mark {
        Mark::Todo => "TODO"@,
        Mark::Fixme => "FIXME"@,
        Mark::Hack => "HACK"@,
        Mark::Xxx => "XXX"@,
    }
}

impl Mark {
    /// The word as it is written in code.
    pub fn word(&self) -> (r: &'static str)
        ensures
            r@ == mark_word(*self),
    {
        match self {
            Mark::Todo => "TODO",
            Mark::Fixme => "FIXME",
            Mark::Hack => "HACK",
            Mark::Xxx => "XXX",
        }
    }

    /// Every kind, in the order they are reported.
    pub fn all() -> (r: [Mark; 4])
        ensures
            r@ == seq![Mark::Todo, Mark::Fixme, Mark::Hack, Mark::Xxx],
    {
        let r = [Mark::Todo, Mark::Fixme, Mark::Hack, Mark::Xxx];
        assert(r@ =~= seq![Mark::Todo, Mark::Fixme, Mark::Hack, Mark::Xxx]);
        r
    }
}

/// Whether a character binds a word together: letters, digits and underscore.
pub open spec fn joins(c: char) -> bool {
    alphanumeric(c) || c == '_'
}

/// Whether the stretch of `n` characters at `i` stands on its own rather than
/// sitting inside a longer word.
///
/// The marker is nearly always followed by punctuation (`TODO:`, `TODO(ales)`)
/// or a space.
pub open spec fn standalone(text: Seq<char>, i: int, n: nat) -> bool {
    (i == 0 || !joins(text[i - 1])) && (i + n == text.len() || !joins(text[i + n]))
}

/// How often a word stands on its own among the first `upto` positions of a
/// text. A line that repeats a word means it twice.
pub open spec fn standing(text: Seq<char>, word: Seq<char>, upto: int) -> nat
    decreases upto,
{
    if upto <= 0 {
        0
    } else {
        standing(text, word, upto - 1) + if occurs_at(text, word, upto - 1) && standalone(
            text,
            upto - 1,
            word.len(),
        ) {
            1nat
        } else {
            0nat
        }
    }
}

/// How many marks of a kind the added lines carry.
pub open spec fn marked(lines: Seq<DiffLine>, mark: Mark) -> nat
    decreases lines.len(),
{
    if lines.len() == 0 {
        0
    } else {
        marked(lines.drop_last(), mark) + if lines.last().kind == DiffLineKind::Added {
            standing(lines.last().text@, mark_word(mark), lines.last().text@.len() as int)
        } else {
            0
        }
    }
}

/// The kinds that occur, with their counts.
pub open spec fn tally(counts: spec_fn(Mark) -> nat, marks: Seq<Mark>) -> Seq<(Mark, nat)>
    decreases marks.len(),
{
    if marks.len() == 0 {
        Seq::empty()
    } else if counts(marks.last()) > 0 {
        tally(counts, marks.drop_last()).push((marks.last(), counts(marks.last())))
    } else {
        tally(counts, marks.drop_last())
    }
}

/// A count, or the largest one that a `usize` holds.
pub open spec fn capped(n: nat) -> nat {
    if n <= usize::MAX {
        n
    } else {
        usize::MAX as nat
    }
}

/// What the added lines of a diff carry: each kind that occurs, with its count,
/// in the order of the kinds.
pub open spec fn marks_of(diff: Diff) -> Seq<(Mark, nat)> {
    tally(
        |m: Mark| capped(marked(diff.lines(), m)),
        seq![Mark::Todo, Mark::Fixme, Mark::Hack, Mark::Xxx],
    )
}

/// How many of each kind of mark the added lines carry.
///
/// Ordered by [`Mark`] so the reader sees the same sequence every time; a
/// count that reshuffled itself between redraws would be unreadable.
#[derive(Debug, PartialEq, Eq)]
pub struct Marks {
    counts: Vec<(Mark, usize)>,
}

impl View for Marks {
    type V = Seq<(Mark, nat)>;

    closed spec fn view(&self) -> Seq<(Mark, nat)> {
        self.counts@.map_values(|c: (Mark, usize)| (c.0, c.1 as nat))
    }
}

impl Default for Marks {
    fn default() -> (r: Self)
        ensures
            r@ == Seq::<(Mark, nat)>::empty(),
    {
        let r = Marks { counts: Vec::new() };
        assert(r@ =~= Seq::<(Mark, nat)>::empty());
        r
    }
}

/// The sum of the counts.
pub open spec fn sum_of(counts: Seq<(Mark, nat)>) -> nat
    decreases counts.len(),
{
    if counts.len() == 0 {
        0
    } else {
        sum_of(counts.drop_last()) + counts.last().1
    }
}

/// The count of one kind: that of its first entry, or 0.
pub open spec fn count_in(counts: Seq<(Mark, nat)>, mark: Mark) -> nat
    decreases counts.len(),
{
    if counts.len() == 0 {
        0
    } else if counts[0].0 == mark {
        counts[0].1
    } else {
        count_in(counts.skip(1), mark)
    }
}

/// One kind and its count, as the summary has it.
pub open spec fn entry_text(entry: (Mark, nat)) -> Seq<char> {
    mark_word(entry.0) + "×"@ + decimal_of(entry.1)
}

impl Marks {
    /// Whether anything was found at all.
    pub fn is_empty(&self) -> (r: bool)
        ensures
            r == (self@.len() == 0),
    {
        self.counts.len() == 0
    }

    /// How many marks in total, of every kind. A sum beyond what a `usize`
    /// holds is the largest one.
    pub fn total(&self) -> (r: usize)
        ensures
            r == capped(sum_of(self@)),
    {
        let mut n: usize = 0;
        let ghost all = self@;
        assert(all.take(0) =~= Seq::<(Mark, nat)>::empty());
        for i in 0..self.counts.len()
            invariant
                all == self@,
                all.len() == self.counts@.len(),
                n == capped(sum_of(all.take(i as int))),
        {
            proof {
                assert(all.take(i + 1).drop_last() =~= all.take(i as int));
                assert(all.take(i + 1).last() == all[i as int]);
                assert(all[i as int].1 == self.counts@[i as int].1);
            }
            n = n.saturating_add(self.counts[i].1);
        }
        assert(all.take(all.len() as int) =~= all);
        n
    }

    /// How many of one particular kind.
    pub fn count(&self, mark: Mark) -> (r: usize)
        ensures
            r == count_in(self@, mark),
    {
        let ghost all = self@;
        assert(all.skip(0) =~= all);
        for i in 0..self.counts.len()
            invariant
                all == self@,
                all.len() == self.counts@.len(),
                count_in(all, mark) == count_in(all.skip(i as int), mark),
        {
            assert(all.skip(i as int)[0] == all[i as int]);
            assert(all[i as int] == (self.counts@[i as int].0, self.counts@[i as int].1 as nat));
            if self.counts[i].0 == mark {
                return self.counts[i].1;
            }
            assert(all.skip(i as int).skip(1) =~= all.skip(i + 1));
        }
        0
    }

    /// Each kind that occurs, with its count, in [`Mark`] order.
    pub fn iter(&self) -> (r: &Vec<(Mark, usize)>)
        ensures
            r@.map_values(|c: (Mark, usize)| (c.0, c.1 as nat)) == self@,
    {
        &self.counts
    }

    /// A short summary, or `None` when there is nothing to say.
    ///
    /// `None` rather than an empty string so a caller cannot paint a blank
    /// where it meant to paint nothing.
    pub fn label(&self) -> (r: Option<String>)
        ensures
            r is None <==> self@.len() == 0,
            r matches Some(s) ==> s@ == join_with(
                self@.map_values(|e: (Mark, nat)| entry_text(e)),
                " "@,
            ),
    {
        if self.is_empty() {
            return None;
        }
        let ghost all = self@.map_values(|e: (Mark, nat)| entry_text(e));
        let mut parts: Vec<String> = Vec::new();
        for i in 0..self.counts.len()
            invariant
                all == self@.map_values(|e: (Mark, nat)| entry_text(e)),
                all.len() == self.counts@.len(),
                texts(parts@) =~= all.take(i as int),
        {
            let mut part = self.counts[i].0.word().to_owned();
            part.append("×");
            let n = decimal(self.counts[i].1 as u64);
            part.append(n.as_str());
            assert(self@[i as int] == (self.counts@[i as int].0, self.counts@[i as int].1 as nat));
            assert(part@ == all[i as int]);
            let ghost before = texts(parts@);
            parts.push(part);
            assert(texts(parts@) =~= before.push(part@));
        }
        assert(all.take(all.len() as int) =~= all);
        Some(join(&parts, " "))
    }
}

fn joined_by(c: char) -> (r: bool)
    ensures
        r == joins(c),
{
    c.is_alphanumeric() || c == '_'
}

/// How often a word stands on its own in a text.
fn count_standing(text: &Vec<char>, word: &Vec<char>) -> (r: usize)
    requires
        word@.len() > 0,
    ensures
        r == standing(text@, word@, text@.len() as int),
{
    let mut n: usize = 0;
    for i in 0..text.len()
        invariant
            word@.len() > 0,
            n == standing(text@, word@, i as int),
            n <= i,
    {
        if stands_at(text, word, i) {
            let end: usize = i + word.len();
            if (i == 0 || !joined_by(text[i - 1])) && (end == text.len() || !joined_by(text[end])) {
                n += 1;
            }
        }
    }
    n
}

/// How many marks of a kind the added lines carry.
fn count_marked(lines: &Vec<DiffLine>, mark: Mark) -> (r: usize)
    ensures
        r == capped(marked(lines@, mark)),
{
    let word = chars_of(mark.word());
    proof {
        reveal_strlit("TODO");
        reveal_strlit("FIXME");
        reveal_strlit("HACK");
        reveal_strlit("XXX");
        assert(lines@.take(0) =~= Seq::<DiffLine>::empty());
    }
    let mut n: usize = 0;
    for i in 0..lines.len()
        invariant
            word@ == mark_word(mark),
            word@.len() > 0,
            n == capped(marked(lines@.take(i as int), mark)),
    {
        proof {
            assert(lines@.take(i + 1).drop_last() =~= lines@.take(i as int));
            assert(lines@.take(i + 1).last() == lines@[i as int]);
        }
        if lines[i].kind == DiffLineKind::Added {
            let text = chars_of(lines[i].text.as_str());
            n = n.saturating_add(count_standing(&text, &word));
        }
    }
    assert(lines@.take(lines@.len() as int) =~= lines@);
    n
}

/// Count the marks on the lines this diff adds.
///
/// A diff with no text — binary, deleted, empty — carries no marks rather than
/// being an error: there is simply nothing to read.
pub fn marks_in(diff: &Diff) -> (r: Marks)
    ensures
        r@ == marks_of(*diff),
{
    let ghost f = |m: Mark| capped(marked(diff.lines(), m));
    let kinds = Mark::all();
    let ghost all = seq![Mark::Todo, Mark::Fixme, Mark::Hack, Mark::Xxx];
    let mut out = Marks::default();
    assert(all.take(0) =~= Seq::<Mark>::empty());
    for i in 0..4
        invariant
            kinds@ == all,
            all.len() == 4,
            f == (|m: Mark| capped(marked(diff.lines(), m))),
            out@ == tally(f, all.take(i as int)),
    {
        let mark: Mark = kinds[i];
        proof {
            assert(all.take(i + 1).drop_last() =~= all.take(i as int));
            assert(all.take(i + 1).last() == mark);
        }
        let n: usize = match diff {
            Diff::Text(lines) => count_marked(lines, mark),
            _ => 0,
        };
        if n > 0 {
            let ghost before = out@;
            out.counts.push((mark, n));
            assert(out@ =~= before.push((mark, n as nat)));
        }
    }
    assert(all.take(4) =~= all);
    out
}

} // verus!
