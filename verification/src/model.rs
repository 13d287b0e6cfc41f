//! What the viewer knows about a file: how it strayed, and its diff.

use vstd::prelude::*;
use vstd::string::*;

use crate::seqs::index_of;
use crate::sorting::Pathed;
use crate::text::{chars_of, find_from, nat_upto, parse_u32, starts_with, text_between};

pub mod numbering;

verus! {

/// How a file differs from what it is compared against.
#[derive(Debug, PartialEq, Eq)]
pub enum StrayStatus {
    Modified,
    Added,
    Deleted,
    Untracked,
    /// Moved here from another path.
    Renamed { from: String },
    /// Tracked and the same as what it is compared against.
    Unchanged,
    /// A repository of its own, recorded as a commit.
    Submodule,
    /// Left unmerged.
    Conflicted,
}

/// A status, with its text as characters.
pub enum StatusView {
    Modified,
    Added,
    Deleted,
    Untracked,
    Renamed { from: Seq<char> },
    Unchanged,
    Submodule,
    Conflicted,
}

impl View for StrayStatus {
    type V = StatusView;

    open spec fn view(&self) -> StatusView {
        match self {
            StrayStatus::Modified => StatusView::Modified,
            StrayStatus::Added => StatusView::Added,
            StrayStatus::Deleted => StatusView::Deleted,
            StrayStatus::Untracked => StatusView::Untracked,
            StrayStatus::Renamed { from } => StatusView::Renamed { from: from@ },
            StrayStatus::Unchanged => StatusView::Unchanged,
            StrayStatus::Submodule => StatusView::Submodule,
            StrayStatus::Conflicted => StatusView::Conflicted,
        }
    }
}

impl Clone for StrayStatus {
    fn clone(&self) -> (r: Self)
        ensures
            r == *self,
    {
        match self {
            StrayStatus::Modified => StrayStatus::Modified,
            StrayStatus::Added => StrayStatus::Added,
            StrayStatus::Deleted => StrayStatus::Deleted,
            StrayStatus::Untracked => StrayStatus::Untracked,
            StrayStatus::Renamed { from } => StrayStatus::Renamed { from: from.clone() },
            StrayStatus::Unchanged => StrayStatus::Unchanged,
            StrayStatus::Submodule => StrayStatus::Submodule,
            StrayStatus::Conflicted => StrayStatus::Conflicted,
        }
    }
}

impl StrayStatus {
    /// Whether there is a file on disk that an editor could open.
    pub fn is_openable(&self) -> (r: bool)
        ensures
            r == !(self is Deleted || self is Submodule),
    {
        match self {
            StrayStatus::Deleted | StrayStatus::Submodule => false,
            _ => true,
        }
    }

    /// Whether the file differs at all.
    pub fn is_changed(&self) -> (r: bool)
        ensures
            r == !(self is Unchanged),
    {
        match self {
            StrayStatus::Unchanged => false,
            _ => true,
        }
    }

    /// Whether this is a submodule.
    pub fn is_submodule(&self) -> (r: bool)
        ensures
            r == (self is Submodule),
    {
        match self {
            StrayStatus::Submodule => true,
            _ => false,
        }
    }

    /// The one character that marks the status in the list.
    pub fn glyph(&self) -> (r: char)
        ensures
            r == (match *self {
                StrayStatus::Modified => 'M',
                StrayStatus::Added => 'A',
                StrayStatus::Deleted => 'D',
                StrayStatus::Untracked => '?',
                StrayStatus::Renamed { .. } => 'R',
                StrayStatus::Unchanged => ' ',
                StrayStatus::Submodule => 'S',
                StrayStatus::Conflicted => 'U',
            }),
    {
        match self {
            StrayStatus::Modified => 'M',
            StrayStatus::Added => 'A',
            StrayStatus::Deleted => 'D',
            StrayStatus::Untracked => '?',
            StrayStatus::Renamed { .. } => 'R',
            StrayStatus::Unchanged => ' ',
            StrayStatus::Submodule => 'S',
            StrayStatus::Conflicted => 'U',
        }
    }
}

/// One file in the list.
#[derive(Debug, PartialEq, Eq)]
pub struct Stray {
    pub status: StrayStatus,
    /// Relative to the repository's root.
    pub path: String,
}

/// A file in the list, with its text as characters.
pub struct StrayView {
    pub status: StatusView,
    pub path: Seq<char>,
}

impl View for Stray {
    type V = StrayView;

    open spec fn view(&self) -> StrayView {
        StrayView { status: self.status@, path: self.path@ }
    }
}

impl Clone for Stray {
    fn clone(&self) -> (r: Self)
        ensures
            r == *self,
    {
        Stray { status: self.status.clone(), path: self.path.clone() }
    }
}

impl Pathed for Stray {
    open spec fn at(&self) -> Seq<char> {
        self.path@
    }

    fn path_text(&self) -> (r: &str) {
        self.path.as_str()
    }
}

/// The files of a list, with their texts as characters.
pub open spec fn stray_views(v: Seq<Stray>) -> Seq<StrayView> {
    v.map_values(|s: Stray| s@)
}

impl Stray {
    /// A file at a path.
    pub fn new(status: StrayStatus, path: &str) -> (r: Self)
        ensures
            r.status == status,
            r.path@ == path@,
    {
        Stray { status, path: path.to_owned() }
    }
}

/// How far a branch is from the one it tracks.
#[derive(Debug, Clone, Copy, PartialEq, Eq, Structural)]
pub struct Upstream {
    /// Commits here that are not there.
    pub ahead: usize,
    /// Commits there that are not here.
    pub behind: usize,
}

impl Upstream {
    /// Whether neither side has a commit that the other lacks.
    pub fn is_in_sync(&self) -> (r: bool)
        ensures
            r == (self.ahead == 0 && self.behind == 0),
    {
        self.ahead == 0 && self.behind == 0
    }
}

/// What a line of a diff is.
#[derive(Debug, Clone, Copy, PartialEq, Eq, Structural)]
pub enum DiffLineKind {
    /// Names files or modes, or remarks on the line before.
    Header,
    /// Starts a hunk and says where it lies.
    Hunk,
    Added,
    Removed,
    Context,
}

/// One line of a diff.
#[derive(Debug, PartialEq, Eq)]
pub struct DiffLine {
    pub kind: DiffLineKind,
    /// The line as it was printed, marker and all.
    pub text: String,
    /// Its number in the file as it is now, where it has one.
    pub new_line: Option<u32>,
}

/// A line of a diff, with its text as characters.
pub struct LineView {
    pub kind: DiffLineKind,
    pub text: Seq<char>,
    pub new_line: Option<u32>,
}

impl View for DiffLine {
    type V = LineView;

    open spec fn view(&self) -> LineView {
        LineView { kind: self.kind, text: self.text@, new_line: self.new_line }
    }
}

/// The lines of a diff, with their texts as characters.
pub open spec fn line_views(v: Seq<DiffLine>) -> Seq<LineView> {
    v.map_values(|l: DiffLine| l@)
}

/// What a line that was just read says.
pub open spec fn read_as(text: Seq<char>) -> LineView {
    LineView { kind: kind_of(text), text, new_line: None }
}

impl Clone for DiffLine {
    fn clone(&self) -> (r: Self)
        ensures
            r == *self,
    {
        DiffLine { kind: self.kind, text: self.text.clone(), new_line: self.new_line }
    }
}

/// What a line of a diff is, by how it starts.
pub open spec fn kind_of(text: Seq<char>) -> DiffLineKind {
    if "@@"@.is_prefix_of(text) {
        DiffLineKind::Hunk
    } else if "+++ "@.is_prefix_of(text) || "--- "@.is_prefix_of(text) {
        DiffLineKind::Header
    } else if text.len() == 0 || text[0] == ' ' {
        DiffLineKind::Context
    } else if text[0] == '+' {
        DiffLineKind::Added
    } else if text[0] == '-' {
        DiffLineKind::Removed
    } else {
        DiffLineKind::Header
    }
}

/// Where the new side of a hunk starts: the number after the first `+`.
pub open spec fn hunk_start(text: Seq<char>) -> Option<nat> {
    let plus = index_of(text, '+');
    if plus < text.len() {
        let rest = text.skip(plus as int + 1);
        let comma = index_of(rest, ',');
        let space = index_of(rest, ' ');
        let end = if comma < space {
            comma
        } else {
            space
        };
        nat_upto(rest.take(end as int), u32::MAX as nat)
    } else {
        None
    }
}

/// The number of each line, given the number that the next line of the new file
/// has, if that is known. Only context and additions are lines of the new file.
pub open spec fn numbers_from(lines: Seq<DiffLine>, next: Option<nat>) -> Seq<Option<u32>>
    decreases lines.len(),
{
    if lines.len() == 0 {
        Seq::empty()
    } else {
        let line = lines[0];
        if line.kind == DiffLineKind::Hunk {
            seq![None::<u32>] + numbers_from(lines.skip(1), hunk_start(line.text@))
        } else if line.kind == DiffLineKind::Added || line.kind == DiffLineKind::Context {
            match next {
                Some(n) => if n <= u32::MAX {
                    seq![Some(n as u32)] + numbers_from(lines.skip(1), Some(n + 1))
                } else {
                    seq![None::<u32>] + numbers_from(lines.skip(1), next)
                },
                None => seq![None::<u32>] + numbers_from(lines.skip(1), next),
            }
        } else {
            seq![None::<u32>] + numbers_from(lines.skip(1), next)
        }
    }
}

impl DiffLine {
    /// Reads one line of a diff. Its number is not known from the line alone.
    pub fn parse(text: &str) -> (r: Self)
        ensures
            r@ == read_as(text@),
    {
        let cs = chars_of(text);
        let kind = if starts_with(text, "@@") {
            DiffLineKind::Hunk
        } else if starts_with(text, "+++ ") || starts_with(text, "--- ") {
            DiffLineKind::Header
        } else if cs.len() == 0 || cs[0] == ' ' {
            DiffLineKind::Context
        } else if cs[0] == '+' {
            DiffLineKind::Added
        } else if cs[0] == '-' {
            DiffLineKind::Removed
        } else {
            DiffLineKind::Header
        };
        DiffLine { kind, text: text.to_owned(), new_line: None }
    }
}

fn read_hunk_start(text: &str) -> (r: Option<u32>)
    ensures
        match r {
            Some(n) => hunk_start(text@) == Some(n as nat),
            None => hunk_start(text@) is None,
        },
{
    let cs = chars_of(text);
    let plus: usize = find_from(&cs, 0, '+');
    proof {
        assert(cs@.skip(0) =~= cs@);
    }
    if plus == cs.len() {
        return None;
    }
    let comma: usize = find_from(&cs, plus + 1, ',');
    let space: usize = find_from(&cs, plus + 1, ' ');
    let end: usize = if comma < space {
        comma
    } else {
        space
    };
    let digits = text_between(&cs, plus + 1, end);
    proof {
        let rest = cs@.skip(plus + 1);
        assert(digits@ =~= rest.take(end - plus - 1));
    }
    parse_u32(digits.as_str())
}

proof fn lemma_one_number_each(lines: Seq<DiffLine>, next: Option<nat>)
    ensures
        numbers_from(lines, next).len() == lines.len(),
    decreases lines.len(),
{
    if lines.len() > 0 {
        lemma_one_number_each(lines.skip(1), hunk_start(lines[0].text@));
        lemma_one_number_each(lines.skip(1), next);
        if let Some(n) = next {
            lemma_one_number_each(lines.skip(1), Some(n + 1));
        }
    }
}

/// Gives every line of the new file its number, as the hunks' headers have it.
pub fn number_lines(lines: Vec<DiffLine>) -> (r: Vec<DiffLine>)
    ensures
        r@.len() == lines@.len(),
        forall|i: int|
            0 <= i < r@.len() ==> r@[i] == (DiffLine {
                new_line: numbers_from(lines@, None)[i],
                ..lines@[i]
            }),
{
    let ghost all = lines@;
    let ghost numbers = numbers_from(all, None);
    let mut out: Vec<DiffLine> = Vec::new();
    let mut next: Option<u64> = None;
    let ghost mut at: int = 0;
    proof {
        lemma_one_number_each(all, None);
        assert(all.skip(0) =~= all);
    }
    for line in it: lines
        invariant
            it.seq() == all,
            at == it.index(),
            numbers == numbers_from(all, None),
            out@.len() == at,
            next matches Some(n) ==> n <= u32::MAX + 1,
            numbers.len() == all.len(),
            numbers.skip(at) =~= numbers_from(
                all.skip(at),
                match next {
                    Some(n) => Some(n as nat),
                    None => None,
                },
            ),
            forall|i: int|
                0 <= i < at ==> out@[i] == (DiffLine { new_line: numbers[i], ..all[i] }),
    {
        let ghost here = numbers_from(
            all.skip(at),
            match next {
                Some(n) => Some(n as nat),
                None => None,
            },
        );
        assert(all.skip(at)[0] == line);
        assert(all.skip(at).skip(1) =~= all.skip(at + 1));
        let mut number: Option<u32> = None;
        match line.kind {
            DiffLineKind::Hunk => {
                next = match read_hunk_start(line.text.as_str()) {
                    Some(n) => Some(n as u64),
                    None => None,
                };
            },
            DiffLineKind::Added | DiffLineKind::Context => {
                if let Some(n) = next {
                    if n <= u32::MAX as u64 {
                        number = Some(n as u32);
                        next = Some(n + 1);
                    }
                }
            },
            _ => {},
        }
        proof {
            assert(here[0] == number);
            assert(numbers.skip(at)[0] == numbers[at]);
            assert(numbers.skip(at + 1) =~= here.skip(1));
            at = at + 1;
        }
        out.push(DiffLine { kind: line.kind, text: line.text, new_line: number });
    }
    out
}

/// The diff of one file.
#[derive(Debug, Clone, PartialEq, Eq)]
pub enum Diff {
    Text(Vec<DiffLine>),
    Binary,
    Deleted,
    Empty,
}

/// The diff of one file, with its texts as characters.
pub enum DiffView {
    Text(Seq<LineView>),
    Binary,
    Deleted,
    Empty,
}

impl View for Diff {
    type V = DiffView;

    open spec fn view(&self) -> DiffView {
        match self {
            Diff::Text(lines) => DiffView::Text(line_views(lines@)),
            Diff::Binary => DiffView::Binary,
            Diff::Deleted => DiffView::Deleted,
            Diff::Empty => DiffView::Empty,
        }
    }
}

impl Diff {
    /// The lines of the diff, if it has any text.
    pub open spec fn lines(&self) -> Seq<DiffLine> {
        match self {
            Diff::Text(lines) => lines@,
            _ => Seq::empty(),
        }
    }
}

} // verus!
