//! Notes a commenter leaves on individual diff lines, and where they are kept.
//!
//! The point of the loop: read a diff, mark what needs changing, hand the
//! collected notes to the agent that wrote the code.
//!
//! # Surviving a refresh
//!
//! The worktree changes underneath the viewer — that is the whole premise — so
//! a note pinned to "line 42 of the current diff" would drift onto unrelated
//! code within seconds. Each note therefore carries an [`Anchor`]: the file, a
//! line number, and a hash of what that line said when the note was written.
//! Re-finding it is [`Anchor::locate`], which trusts the content over the
//! number.

use std::collections::hash_map::DefaultHasher;
use std::hash::Hasher;

use vstd::prelude::*;
use vstd::std_specs::hash::DefaultHasherAdditionalSpecFns;
use vstd::string::*;

use crate::model::DiffLine;
use crate::paths::{same_as, same_path};
use crate::sorting::Pathed;
use crate::text::{chars_of, same, text_between, trim_end, trimmed_end};



pub mod review;
pub mod store;
pub mod wording;

pub use crate::annotate::review::{compose, compose_with_comments};
pub use crate::annotate::store::{load, save, StoreError};

verus! {

/// What kind of remark this is.
///
/// The kind leads the note when it reaches the agent, so "issue" and "question"
/// are acted on differently.
#[derive(Debug, Clone, Copy, PartialEq, Eq, Structural)]
pub enum Kind {
    /// Something is wrong here.
    Issue,
    /// A proposed change.
    Suggestion,
    /// Something the commenter does not understand.
    Question,
    /// An observation worth recording, needing no action.
    Note,
}

/// The word for a kind.
pub open spec fn kind_word(kind: Kind) -> Seq<char> {
    match kind {
        Kind::Issue => "issue"@,
        Kind::Suggestion => "suggestion"@,
        Kind::Question => "question"@,
        Kind::Note => "note"@,
    }
}

/// The kind that a word stands for. An unknown word is a note.
pub open spec fn kind_in(word: Seq<char>) -> Kind {
    if word == "issue"@ {
        Kind::Issue
    } else if word == "suggestion"@ {
        Kind::Suggestion
    } else if word == "question"@ {
        Kind::Question
    } else {
        Kind::Note
    }
}

impl Kind {
    /// Cycle to the next kind, for a key that steps through them.
    pub fn next(self) -> (r: Self)
        ensures
            r == (match self {
                Kind::Issue => Kind::Suggestion,
                Kind::Suggestion => Kind::Question,
                Kind::Question => Kind::Note,
                Kind::Note => Kind::Issue,
            }),
    {
        match self {
            Kind::Issue => Kind::Suggestion,
            Kind::Suggestion => Kind::Question,
            Kind::Question => Kind::Note,
            Kind::Note => Kind::Issue,
        }
    }

    /// The word for the kind.
    pub fn label(self) -> (r: &'static str)
        ensures
            r@ == kind_word(self),
    {
        match self {
            Kind::Issue => "issue",
            Kind::Suggestion => "suggestion",
            Kind::Question => "question",
            Kind::Note => "note",
        }
    }

    /// Read a label back. Unknown labels become `Note` rather than failing:
    /// a stored file written by a later version should lose the kind, not the
    /// annotation.
    pub fn parse(label: &str) -> (r: Self)
        ensures
            r == kind_in(label@),
    {
        if same(label, "issue") {
            Kind::Issue
        } else if same(label, "suggestion") {
            Kind::Suggestion
        } else if same(label, "question") {
            Kind::Question
        } else {
            Kind::Note
        }
    }
}

/// Every kind's word reads back as the kind.
pub proof fn kind_words_read_back(kind: Kind)
    ensures
        kind_in(kind_word(kind)) == kind,
{
    reveal_strlit("issue");
    reveal_strlit("suggestion");
    reveal_strlit("question");
    reveal_strlit("note");
    assert("issue"@.len() == 5);
    assert("suggestion"@.len() == 10);
    assert("question"@.len() == 8);
    assert("note"@.len() == 4);
}

/// Where an annotation is pinned.
///
/// The line number alone is not enough — an edit above it shifts every line
/// below — and the content alone is not enough either, since the same line can
/// appear many times in a file. Together they place a note precisely when
/// nothing moved, and approximately when something did.
#[derive(Debug, PartialEq, Eq)]
pub struct Anchor {
    /// Path relative to the repository root.
    pub file: String,
    /// Line number in the new file, as it was when the note was written.
    pub line: u32,
    /// Hash of that line's text, so a moved line can still be recognised.
    pub hash: u64,
}

impl Clone for Anchor {
    fn clone(&self) -> (r: Self)
        ensures
            r == *self,
    {
        Anchor { file: self.file.clone(), line: self.line, hash: self.hash }
    }
}

/// How far from its recorded line an annotation will be searched for.
///
/// Wide enough to survive an edit or two above it, narrow enough that a
/// coincidentally identical line elsewhere in the file is not mistaken for the
/// one that was annotated.
pub const SEARCH_RADIUS: u32 = 40;

/// What the `Hash` of a text hands to a hasher.
pub uninterp spec fn hashed_parts(s: Seq<char>) -> Seq<Seq<u8>>;

/// `Hash` for `str`: hands the hasher what depends on the text alone. Which bytes
/// they are is left unsaid.
#[verifier::external_body]
fn feed(s: &str, hasher: &mut DefaultHasher)
    ensures
        final(hasher)@ == old(hasher)@ + hashed_parts(s@),
{
    std::hash::Hash::hash(s, hasher)
}

/// The number that a hasher comes to after nothing but a text.
pub open spec fn text_hash(s: Seq<char>) -> u64 {
    DefaultHasher::spec_finish(hashed_parts(s))
}

fn hash_text(s: &str) -> (r: u64)
    ensures
        r == text_hash(s@),
{
    let mut hasher = DefaultHasher::new();
    feed(s, &mut hasher);
    assert(hasher@ =~= hashed_parts(s@));
    hasher.finish()
}

/// The code on a diff line: without its leading `+`/`-`/space marker, and
/// without trailing white space.
pub open spec fn line_content(text: Seq<char>) -> Seq<char> {
    if text.len() > 0 && (text[0] == '+' || text[0] == '-' || text[0] == ' ') {
        trimmed_end(text.skip(1))
    } else {
        trimmed_end(text)
    }
}

/// The hash of a diff line's content.
pub open spec fn line_hash(text: Seq<char>) -> u64 {
    text_hash(line_content(text))
}

/// The code on a diff line, without its marker and trailing white space.
pub fn content_of(text: &str) -> (r: String)
    ensures
        r@ == line_content(text@),
{
    let cs = chars_of(text);
    if cs.len() > 0 && (cs[0] == '+' || cs[0] == '-' || cs[0] == ' ') {
        let body = text_between(&cs, 1, cs.len());
        assert(body@ =~= text@.skip(1));
        trim_end(body.as_str())
    } else {
        trim_end(text)
    }
}

/// Hash a diff line's content, ignoring its leading `+`/`-`/space marker.
///
/// The marker changes when a line goes from added to context — staging it does
/// exactly that — and the note is about the code, not about its state.
/// Trailing whitespace is ignored for the same reason: it changes without the
/// line meaning anything different.
pub fn hash_line(text: &str) -> (r: u64)
    ensures
        r == line_hash(text@),
{
    let content = content_of(text);
    hash_text(content.as_str())
}

/// The hash does not see the marker: a line hashes the same added, removed or
/// as context.
pub proof fn markers_do_not_change_the_hash(code: Seq<char>)
    ensures
        line_hash(seq!['+'] + code) == line_hash(seq![' '] + code),
        line_hash(seq!['-'] + code) == line_hash(seq![' '] + code),
{
    assert((seq!['+'] + code).skip(1) =~= code);
    assert((seq!['-'] + code).skip(1) =~= code);
    assert((seq![' '] + code).skip(1) =~= code);
}

/// The first line of a diff that has the number `n`, if one has.
pub open spec fn numbered(lines: Seq<DiffLine>, n: u32) -> Option<DiffLine>
    decreases lines.len(),
{
    if lines.len() == 0 {
        None
    } else if lines[0].new_line == Some(n) {
        Some(lines[0])
    } else {
        numbered(lines.skip(1), n)
    }
}

/// Whether the line numbered `n` has the hash `hash`.
pub open spec fn says(lines: Seq<DiffLine>, n: int, hash: u64) -> bool {
    0 <= n <= u32::MAX && (match numbered(lines, n as u32) {
        Some(line) => line_hash(line.text@) == hash,
        None => false,
    })
}

/// The nearest line from `offset` lines away on that has the hash, the one
/// below before the one above.
pub open spec fn nearest(lines: Seq<DiffLine>, line: u32, hash: u64, offset: int) -> Located
    decreases SEARCH_RADIUS - offset + 1,
{
    if offset > SEARCH_RADIUS {
        Located::Orphaned
    } else if says(lines, line + offset, hash) {
        Located::Moved((line + offset) as u32)
    } else if says(lines, line - offset, hash) {
        Located::Moved((line - offset) as u32)
    } else {
        nearest(lines, line, hash, offset + 1)
    }
}

/// Where a line with the hash is: at its number, or else at the nearest number
/// within [`SEARCH_RADIUS`] that has it.
pub open spec fn found(lines: Seq<DiffLine>, line: u32, hash: u64) -> Located {
    if says(lines, line as int, hash) {
        Located::Exact(line)
    } else {
        nearest(lines, line, hash, 1)
    }
}

fn line_says(lines: &Vec<DiffLine>, n: u32, hash: u64) -> (r: bool)
    ensures
        r == says(lines@, n as int, hash),
{
    assert(lines@.skip(0) =~= lines@);
    for i in 0..lines.len()
        invariant
            numbered(lines@, n) == numbered(lines@.skip(i as int), n),
    {
        if let Some(m) = lines[i].new_line {
            if m == n {
                return hash_line(lines[i].text.as_str()) == hash;
            }
        }
        assert(lines@.skip(i as int).skip(1) =~= lines@.skip(i + 1));
    }
    false
}

impl Anchor {
    /// Pin a note to a diff line.
    ///
    /// Returns `None` for lines that are not in the new file — removals, hunk
    /// headers, metadata — since a note there would have nothing to point at
    /// once the diff is regenerated.
    pub fn of(file: &str, line: &DiffLine) -> (r: Option<Self>)
        ensures
            r is Some <==> line.new_line is Some,
            r matches Some(a) ==> a.file@ == file@ && Some(a.line) == line.new_line && a.hash
                == line_hash(line.text@),
    {
        match line.new_line {
            Some(n) => Some(
                Anchor { file: file.to_owned(), line: n, hash: hash_line(line.text.as_str()) },
            ),
            None => None,
        }
    }

    /// Find this anchor's line in a fresh diff.
    ///
    /// Content wins over position, in three steps:
    ///
    /// 1. The recorded line still says what it said — nothing moved.
    /// 2. A line within [`SEARCH_RADIUS`] says it — the code shifted, and the
    ///    nearest match is taken.
    /// 3. Nothing says it — the annotated line is gone, and the note is
    ///    orphaned rather than reassigned to whatever now occupies that number.
    pub fn locate(&self, lines: &Vec<DiffLine>) -> (r: Located)
        ensures
            r == found(lines@, self.line, self.hash),
    {
        if line_says(lines, self.line, self.hash) {
            return Located::Exact(self.line);
        }
        let mut offset: u32 = 1;
        while offset <= SEARCH_RADIUS
            invariant
                1 <= offset <= SEARCH_RADIUS + 1,
                !says(lines@, self.line as int, self.hash),
                nearest(lines@, self.line, self.hash, 1) == nearest(
                    lines@,
                    self.line,
                    self.hash,
                    offset as int,
                ),
            decreases SEARCH_RADIUS + 1 - offset,
        {
            if offset <= u32::MAX - self.line && line_says(lines, self.line + offset, self.hash) {
                return Located::Moved(self.line + offset);
            }
            if offset <= self.line && line_says(lines, self.line - offset, self.hash) {
                return Located::Moved(self.line - offset);
            }
            offset += 1;
        }
        Located::Orphaned
    }
}

/// The result of re-finding an anchor after the diff changed.
#[derive(Debug, Clone, Copy, PartialEq, Eq, Structural)]
pub enum Located {
    /// Still exactly where it was.
    Exact(u32),
    /// Found nearby; the code above it shifted.
    Moved(u32),
    /// The line it was written about no longer exists.
    ///
    /// Kept and shown separately rather than deleted: the commenter wrote it for
    /// a reason, and silently dropping their words is worse than admitting the
    /// line went away.
    Orphaned,
}

impl Located {
    /// The line that the marker goes on, if any.
    pub open spec fn place(&self) -> Option<u32> {
        match self {
            Located::Exact(n) => Some(*n),
            Located::Moved(n) => Some(*n),
            Located::Orphaned => None,
        }
    }

    /// The line to draw the marker on, when there is one.
    pub fn line(self) -> (r: Option<u32>)
        ensures
            r == self.place(),
    {
        match self {
            Located::Exact(n) => Some(n),
            Located::Moved(n) => Some(n),
            Located::Orphaned => None,
        }
    }
}

proof fn lemma_nearest(lines: Seq<DiffLine>, line: u32, hash: u64, offset: int)
    requires
        1 <= offset,
    ensures
        match nearest(lines, line, hash, offset) {
            Located::Moved(n) => {
                &&& says(lines, n as int, hash)
                &&& offset <= distance(line, n as int) <= SEARCH_RADIUS
                &&& forall|m: int|
                    offset <= distance(line, m) < distance(line, n as int) ==> !says(lines, m, hash)
            },
            Located::Orphaned => forall|m: int|
                offset <= distance(line, m) <= SEARCH_RADIUS ==> !says(lines, m, hash),
            Located::Exact(_) => false,
        },
    decreases SEARCH_RADIUS - offset + 1,
{
    if offset > SEARCH_RADIUS {
    } else if says(lines, line + offset, hash) || says(lines, line - offset, hash) {
    } else {
        lemma_nearest(lines, line, hash, offset + 1);
        assert forall|m: int| distance(line, m) == offset implies !says(lines, m, hash) by {
            assert(m == line + offset || m == line - offset);
        }
    }
}

/// How many lines a number is away from a line.
pub open spec fn distance(line: u32, m: int) -> int {
    if m >= line {
        m - line
    } else {
        line - m
    }
}

/// A note is only ever put on a line that says what its line said, and on the
/// nearest such line within reach; where none is within reach it is orphaned.
pub proof fn notes_follow_their_line(lines: Seq<DiffLine>, line: u32, hash: u64)
    ensures
        match found(lines, line, hash).place() {
            Some(n) => {
                &&& says(lines, n as int, hash)
                &&& distance(line, n as int) <= SEARCH_RADIUS
                &&& forall|m: int|
                    distance(line, m) < distance(line, n as int) ==> !says(lines, m, hash)
            },
            None => forall|m: int| distance(line, m) <= SEARCH_RADIUS ==> !says(lines, m, hash),
        },
        found(lines, line, hash) == Located::Exact(line) <==> says(lines, line as int, hash),
{
    lemma_nearest(lines, line, hash, 1);
}

/// One remark about one line.
#[derive(Debug, PartialEq, Eq)]
pub struct Annotation {
    pub anchor: Anchor,
    pub kind: Kind,
    pub text: String,
}

/// A remark, with its texts as characters.
pub struct NoteView {
    pub file: Seq<char>,
    pub line: u32,
    pub hash: u64,
    pub kind: Kind,
    pub text: Seq<char>,
}

impl View for Annotation {
    type V = NoteView;

    open spec fn view(&self) -> NoteView {
        NoteView {
            file: self.anchor.file@,
            line: self.anchor.line,
            hash: self.anchor.hash,
            kind: self.kind,
            text: self.text@,
        }
    }
}

impl Clone for Annotation {
    fn clone(&self) -> (r: Self)
        ensures
            r == *self,
    {
        Annotation { anchor: self.anchor.clone(), kind: self.kind, text: self.text.clone() }
    }
}

impl Pathed for Annotation {
    open spec fn at(&self) -> Seq<char> {
        self.anchor.file@
    }

    fn path_text(&self) -> (r: &str) {
        self.anchor.file.as_str()
    }
}

/// The remarks of a list, with their texts as characters.
pub open spec fn note_views(v: Seq<Annotation>) -> Seq<NoteView> {
    v.map_values(|a: Annotation| a@)
}

/// Every annotation in one repository, in the order they were written.
#[derive(Debug, PartialEq, Eq)]
pub struct Annotations {
    items: Vec<Annotation>,
}

impl View for Annotations {
    type V = Seq<Annotation>;

    closed spec fn view(&self) -> Seq<Annotation> {
        self.items@
    }
}

impl Default for Annotations {
    fn default() -> (r: Self)
        ensures
            r@ == Seq::<Annotation>::empty(),
    {
        Annotations { items: Vec::new() }
    }
}

impl Clone for Annotations {
    fn clone(&self) -> (r: Self)
        ensures
            r@ == self@,
    {
        let items = self.items.clone();
        assert(items@ =~= self.items@);
        Annotations { items }
    }
}

impl Annotations {
    /// An empty collection.
    pub fn new() -> (r: Self)
        ensures
            r@ == Seq::<Annotation>::empty(),
    {
        Annotations { items: Vec::new() }
    }

    /// Whether there is none.
    pub fn is_empty(&self) -> (r: bool)
        ensures
            r == (self@.len() == 0),
    {
        self.items.len() == 0
    }

    /// How many there are.
    pub fn len(&self) -> (r: usize)
        ensures
            r == self@.len(),
    {
        self.items.len()
    }

    /// All of them, in the order they were written.
    pub fn iter(&self) -> (r: &Vec<Annotation>)
        ensures
            r@ == self@,
    {
        &self.items
    }

    /// Add one, returning a new collection.
    pub fn with(&self, annotation: Annotation) -> (r: Self)
        ensures
            r@ == self@.push(annotation),
    {
        let mut items = self.items.clone();
        assert(items@ =~= self.items@);
        items.push(annotation);
        Annotations { items }
    }

    /// Drop every annotation on one line of one file.
    pub fn without_line(&self, file: &str, line: u32) -> (r: Self)
        ensures
            r@ == self@.filter(
                |a: Annotation| !(same_path(a.anchor.file@, file@) && a.anchor.line == line),
            ),
    {
        let ghost p = |a: Annotation| !(same_path(a.anchor.file@, file@) && a.anchor.line == line);
        let mut items: Vec<Annotation> = Vec::new();
        proof {
            reveal(Seq::filter);
            assert(self.items@.take(0).filter(p) =~= Seq::<Annotation>::empty());
        }
        for i in 0..self.items.len()
            invariant
                p == (|a: Annotation| !(same_path(a.anchor.file@, file@) && a.anchor.line == line)),
                items@ =~= self.items@.take(i as int).filter(p),
        {
            proof {
                let a = self.items@[i as int];
                assert(self.items@.take(i + 1) =~= self.items@.take(i as int).push(a));
                self.items@.take(i as int).lemma_filter_push(a, p);
            }
            let here = self.items[i].anchor.line == line && same_as(
                self.items[i].anchor.file.as_str(),
                file,
            );
            if !here {
                items.push(self.items[i].clone());
            }
        }
        assert(self.items@.take(self.items@.len() as int) =~= self.items@);
        Annotations { items }
    }

    /// Empty the collection — used after the notes have been handed over.
    pub fn cleared(&self) -> (r: Self)
        ensures
            r@ == Seq::<Annotation>::empty(),
    {
        Annotations { items: Vec::new() }
    }

    /// Annotations on one file.
    pub fn for_file(&self, file: &str) -> (r: Vec<&Annotation>)
        ensures
            r@.unref() == self@.filter(|a: Annotation| same_path(a.anchor.file@, file@)),
    {
        let ghost p = |a: Annotation| same_path(a.anchor.file@, file@);
        let mut out: Vec<&Annotation> = Vec::new();
        proof {
            reveal(Seq::filter);
            assert(out@.unref() =~= Seq::<Annotation>::empty());
            assert(self.items@.take(0).filter(p) =~= Seq::<Annotation>::empty());
        }
        for i in 0..self.items.len()
            invariant
                p == (|a: Annotation| same_path(a.anchor.file@, file@)),
                out@.unref() =~= self.items@.take(i as int).filter(p),
        {
            let ghost before = out@.unref();
            proof {
                let a = self.items@[i as int];
                assert(self.items@.take(i + 1) =~= self.items@.take(i as int).push(a));
                self.items@.take(i as int).lemma_filter_push(a, p);
            }
            if same_as(self.items[i].anchor.file.as_str(), file) {
                out.push(&self.items[i]);
                assert(out@.unref() =~= before.push(self.items@[i as int]));
            }
        }
        assert(self.items@.take(self.items@.len() as int) =~= self.items@);
        out
    }

    /// Build from stored items.
    pub fn from_items(items: Vec<Annotation>) -> (r: Self)
        ensures
            r@ == items@,
    {
        Annotations { items }
    }
}

} // verus!
