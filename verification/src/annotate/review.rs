//! Turning collected annotations into the text an agent receives.
//!
//! The text is composed here rather than in [`crate::agent`] because it is a
//! document with a shape — grouped by file, ordered by line — not a one-line
//! message.

use vstd::prelude::*;
use vstd::string::*;

use crate::annotate::{kind_word, Annotation, Annotations};
use crate::forge::PrComment;
use crate::paths::{path_less, path_order_total, same_as, same_path};
use crate::sorting::{by_path, sort_by_path, sorting_is_stable, standing_at, Pathed};
use crate::text::{decimal, decimal_of, replace, replaced};

verus! {

/// `x` put behind every note whose line is not greater.
pub open spec fn placed_by_line(s: Seq<Annotation>, x: Annotation) -> Seq<Annotation>
    decreases s.len(),
{
    if s.len() > 0 && s.last().anchor.line > x.anchor.line {
        placed_by_line(s.drop_last(), x).push(s.last())
    } else {
        s.push(x)
    }
}

/// The notes in the order of their lines; those on the same line stay in the
/// order they had.
pub open spec fn by_line(s: Seq<Annotation>) -> Seq<Annotation>
    decreases s.len(),
{
    if s.len() == 0 {
        s
    } else {
        placed_by_line(by_line(s.drop_last()), s.last())
    }
}

/// The notes grouped by file, in the order of the files, and within a file in
/// the order of their lines.
pub open spec fn reading_order(s: Seq<Annotation>) -> Seq<Annotation> {
    by_path(by_line(s), |a: Annotation| a.at())
}

proof fn lemma_placed_by_line(s: Seq<Annotation>, x: Annotation, pos: int)
    requires
        0 <= pos <= s.len(),
        forall|i: int| pos <= i < s.len() ==> (#[trigger] s[i]).anchor.line > x.anchor.line,
        pos > 0 ==> s[pos - 1].anchor.line <= x.anchor.line,
    ensures
        placed_by_line(s, x) == s.insert(pos, x),
    decreases s.len(),
{
    if pos < s.len() {
        lemma_placed_by_line(s.drop_last(), x, pos);
        assert(s.drop_last().insert(pos, x).push(s.last()) =~= s.insert(pos, x));
    } else {
        assert(s.push(x) =~= s.insert(pos, x));
    }
}

fn sort_by_line(items: &Vec<Annotation>) -> (r: Vec<Annotation>)
    ensures
        r@ == by_line(items@),
{
    let mut out: Vec<Annotation> = Vec::new();
    assert(items@.take(0) =~= Seq::<Annotation>::empty());
    for i in 0..items.len()
        invariant
            out@ == by_line(items@.take(i as int)),
    {
        let x = items[i].clone();
        let mut pos: usize = out.len();
        while pos > 0 && out[pos - 1].anchor.line > x.anchor.line
            invariant
                pos <= out@.len(),
                forall|k: int|
                    pos <= k < out@.len() ==> (#[trigger] out@[k]).anchor.line > x.anchor.line,
            decreases pos,
        {
            pos -= 1;
        }
        proof {
            lemma_placed_by_line(out@, x, pos as int);
            assert(items@.take(i + 1).drop_last() =~= items@.take(i as int));
        }
        out.insert(pos, x);
    }
    assert(items@.take(items@.len() as int) =~= items@);
    out
}

/// Whether the lines ascend.
pub open spec fn lines_ascend(s: Seq<Annotation>) -> bool {
    forall|i: int, j: int|
        0 <= i < j < s.len() ==> (#[trigger] s[i]).anchor.line <= (#[trigger] s[j]).anchor.line
}

/// Whether no line is greater than `m`.
spec fn lines_upto(s: Seq<Annotation>, m: u32) -> bool {
    forall|i: int| 0 <= i < s.len() ==> (#[trigger] s[i]).anchor.line <= m
}

proof fn lemma_placed_upto(s: Seq<Annotation>, x: Annotation, m: u32)
    requires
        lines_upto(s, m),
        x.anchor.line <= m,
    ensures
        lines_upto(placed_by_line(s, x), m),
    decreases s.len(),
{
    if s.len() > 0 && s.last().anchor.line > x.anchor.line {
        let front = s.drop_last();
        assert(lines_upto(front, m)) by {
            assert forall|i: int| 0 <= i < front.len() implies (#[trigger] front[i]).anchor.line
                <= m by {
                assert(s[i].anchor.line <= m);
            }
        }
        lemma_placed_upto(front, x, m);
        assert(s[s.len() - 1].anchor.line <= m);
        assert(lines_upto(placed_by_line(s, x), m));
    }
}

proof fn lemma_placed_ascends(s: Seq<Annotation>, x: Annotation)
    requires
        lines_ascend(s),
    ensures
        lines_ascend(placed_by_line(s, x)),
    decreases s.len(),
{
    if s.len() > 0 && s.last().anchor.line > x.anchor.line {
        let front = s.drop_last();
        assert forall|i: int, j: int| 0 <= i < j < front.len() implies (
        #[trigger] front[i]).anchor.line <= (#[trigger] front[j]).anchor.line by {
            assert(s[i].anchor.line <= s[j].anchor.line);
        }
        lemma_placed_ascends(front, x);
        assert forall|i: int| 0 <= i < front.len() implies (#[trigger] front[i]).anchor.line
            <= s.last().anchor.line by {
            assert(s[i].anchor.line <= s[s.len() - 1].anchor.line);
        }
        lemma_placed_upto(front, x, s.last().anchor.line);
        let r = placed_by_line(front, x);
        let whole = placed_by_line(s, x);
        assert forall|i: int, j: int| 0 <= i < j < whole.len() implies (
        #[trigger] whole[i]).anchor.line <= (#[trigger] whole[j]).anchor.line by {
            if j < r.len() {
                assert(r[i].anchor.line <= r[j].anchor.line);
            } else {
                assert(r[i].anchor.line <= s.last().anchor.line);
            }
        }
    } else if s.len() > 0 {
        let whole = s.push(x);
        assert forall|i: int, j: int| 0 <= i < j < whole.len() implies (
        #[trigger] whole[i]).anchor.line <= (#[trigger] whole[j]).anchor.line by {
            if j < s.len() {
                assert(s[i].anchor.line <= s[j].anchor.line);
            } else if i < s.len() - 1 {
                assert(s[i].anchor.line <= s[s.len() - 1].anchor.line);
            }
        }
    }
}

/// Sorting by line puts the lines in ascending order.
pub proof fn sorted_lines_ascend(s: Seq<Annotation>)
    ensures
        lines_ascend(by_line(s)),
        by_line(s).len() == s.len(),
    decreases s.len(),
{
    if s.len() > 0 {
        sorted_lines_ascend(s.drop_last());
        lemma_placed_ascends(by_line(s.drop_last()), s.last());
        lemma_placed_len(by_line(s.drop_last()), s.last());
    }
}

proof fn lemma_placed_len(s: Seq<Annotation>, x: Annotation)
    ensures
        placed_by_line(s, x).len() == s.len() + 1,
    decreases s.len(),
{
    if s.len() > 0 && s.last().anchor.line > x.anchor.line {
        lemma_placed_len(s.drop_last(), x);
    }
}

/// How a file is written in a review: as the first note on it has it.
pub open spec fn file_shown(s: Seq<Annotation>, p: Seq<char>) -> Seq<char>
    decreases s.len(),
{
    if s.len() == 0 {
        p
    } else if same_path(s[0].anchor.file@, p) {
        s[0].anchor.file@
    } else {
        file_shown(s.skip(1), p)
    }
}

fn shown_file(items: &Vec<Annotation>, p: &str) -> (r: String)
    ensures
        r@ == file_shown(items@, p@),
{
    assert(items@.skip(0) =~= items@);
    for i in 0..items.len()
        invariant
            file_shown(items@, p@) == file_shown(items@.skip(i as int), p@),
    {
        if same_as(items[i].anchor.file.as_str(), p) {
            return items[i].anchor.file.clone();
        }
        assert(items@.skip(i as int).skip(1) =~= items@.skip(i + 1));
    }
    p.to_owned()
}

/// A text whose later lines are indented, so the header above it stays the only
/// thing at the left margin.
pub open spec fn indented(text: Seq<char>) -> Seq<char> {
    replaced(text, '\n', "\n  "@)
}

/// One note of a review: a header with the file, the line and the kind, and the
/// text under it.
pub open spec fn note_text(file: Seq<char>, note: Annotation) -> Seq<char> {
    "\n"@ + file + ":"@ + decimal_of(note.anchor.line as nat) + " ("@ + kind_word(note.kind)
        + ")\n  "@ + indented(note.text@) + "\n"@
}

/// Some notes of a review, one after another.
pub open spec fn notes_text(all: Seq<Annotation>, some: Seq<Annotation>) -> Seq<char>
    decreases some.len(),
{
    if some.len() == 0 {
        Seq::empty()
    } else {
        notes_text(all, some.drop_last()) + note_text(
            file_shown(all, some.last().anchor.file@),
            some.last(),
        )
    }
}

/// The first line of a review: how many notes it holds.
pub open spec fn review_heading(n: nat) -> Seq<char> {
    "Review — "@ + decimal_of(n) + " "@ + (if n == 1 {
        "note"@
    } else {
        "notes"@
    }) + ":\n"@
}

/// A whole review.
pub open spec fn review_text(notes: Seq<Annotation>) -> Seq<char> {
    review_heading(notes.len()) + notes_text(notes, reading_order(notes))
}

fn push_note(out: &mut String, file: &str, note: &Annotation)
    ensures
        final(out)@ == old(out)@ + note_text(file@, *note),
{
    out.append("\n");
    out.append(file);
    out.append(":");
    let line = decimal(note.anchor.line as u64);
    out.append(line.as_str());
    out.append(" (");
    out.append(note.kind.label());
    out.append(")\n  ");
    let text = replace(note.text.as_str(), '\n', "\n  ");
    out.append(text.as_str());
    out.append("\n");
    assert(out@ =~= old(out)@ + note_text(file@, *note));
}

/// Compose the review text for one repository's annotations.
///
/// Grouped by file and ordered by line, because that is the order the agent
/// will want to work through them, and because two notes on the same file
/// belong together even when they were written minutes apart.
///
/// Returns `None` when there is nothing to say: sending an empty review would
/// interrupt the agent for no reason.
pub fn compose(annotations: &Annotations) -> (r: Option<String>)
    ensures
        r is None <==> annotations@.len() == 0,
        r matches Some(text) ==> text@ == review_text(annotations@),
{
    if annotations.is_empty() {
        return None;
    }
    let items = annotations.iter();
    let ordered = sort_by_path(sort_by_line(items));
    let ghost order = reading_order(annotations@);
    let count: usize = annotations.len();
    let mut out = "Review — ".to_owned();
    let n = decimal(count as u64);
    out.append(n.as_str());
    out.append(" ");
    if count == 1 {
        out.append("note");
    } else {
        out.append("notes");
    }
    out.append(":\n");
    assert(out@ =~= review_heading(annotations@.len()));
    assert(order.take(0) =~= Seq::<Annotation>::empty());
    for i in 0..ordered.len()
        invariant
            items@ == annotations@,
            ordered@ == order,
            out@ =~= review_heading(annotations@.len()) + notes_text(
                annotations@,
                order.take(i as int),
            ),
    {
        let file = shown_file(items, ordered[i].anchor.file.as_str());
        proof {
            assert(order.take(i + 1).drop_last() =~= order.take(i as int));
        }
        push_note(&mut out, file.as_str(), &ordered[i]);
    }
    assert(order.take(order.len() as int) =~= order);
    Some(out)
}

/// Whether a note stands on a line.
pub open spec fn is_noted(notes: Seq<Annotation>, file: Seq<char>, line: u32) -> bool {
    exists|i: int|
        0 <= i < notes.len() && same_path((#[trigger] notes[i]).anchor.file@, file)
            && notes[i].anchor.line == line
}

fn noted(notes: &Vec<Annotation>, file: &str, line: u32) -> (r: bool)
    ensures
        r == is_noted(notes@, file@, line),
{
    for i in 0..notes.len()
        invariant
            forall|j: int|
                0 <= j < i ==> !(same_path((#[trigger] notes@[j]).anchor.file@, file@)
                    && notes@[j].anchor.line == line),
    {
        if notes[i].anchor.line == line && same_as(notes[i].anchor.file.as_str(), file) {
            return true;
        }
    }
    false
}

/// Who wrote a comment.
pub open spec fn comment_author(author: Seq<char>) -> Seq<char> {
    if author.len() == 0 {
        "a commenter"@
    } else {
        "@"@ + author
    }
}

/// One quoted comment: a header with the file, the line and the author, and the
/// text under it.
pub open spec fn comment_text(c: PrComment) -> Seq<char> {
    "\n"@ + c.file@ + ":"@ + decimal_of(c.line as nat) + " — "@ + comment_author(c.author@)
        + "\n  "@ + indented(c.body@) + "\n"@
}

/// The comments on lines that are noted, one after another.
pub open spec fn quoted_text(notes: Seq<Annotation>, comments: Seq<PrComment>) -> Seq<char>
    decreases comments.len(),
{
    if comments.len() == 0 {
        Seq::empty()
    } else {
        let before = quoted_text(notes, comments.drop_last());
        let c = comments.last();
        if is_noted(notes, c.file@, c.line) {
            before + comment_text(c)
        } else {
            before
        }
    }
}

/// Whether any comment is on a line that is noted.
pub open spec fn any_quoted(notes: Seq<Annotation>, comments: Seq<PrComment>) -> bool {
    exists|i: int|
        0 <= i < comments.len() && is_noted(
            notes,
            (#[trigger] comments[i]).file@,
            comments[i].line,
        )
}

fn push_comment(out: &mut String, c: &PrComment)
    ensures
        final(out)@ == old(out)@ + comment_text(*c),
{
    out.append("\n");
    out.append(c.file.as_str());
    out.append(":");
    let line = decimal(c.line as u64);
    out.append(line.as_str());
    out.append(" — ");
    if c.author.is_empty() {
        out.append("a commenter");
    } else {
        out.append("@");
        out.append(c.author.as_str());
    }
    out.append("\n  ");
    let text = replace(c.body.as_str(), '\n', "\n  ");
    out.append(text.as_str());
    out.append("\n");
    assert(out@ =~= old(out)@ + comment_text(*c));
}

/// Compose review text, quoting what a commenter already said on the same line.
///
/// The point of carrying the forge's comments into the hand-off is that the
/// agent is about to work on exactly the line somebody objected to. Sending the
/// reader's "fix this" without the commenter's reasoning makes the agent guess at
/// a conversation it was never shown.
///
/// Only comments on lines the reader actually noted are quoted. The whole pull
/// request would be a transcript rather than a review, and the reader chose
/// these lines by noting them.
///
/// Attribution is kept on every quoted line. The agent must be able to tell the
/// commenter's words from its instructions — they are somebody else's, they are
/// already published, and they are not orders from the person pressing the key.
pub fn compose_with_comments(annotations: &Annotations, comments: &Vec<PrComment>) -> (r: Option<
    String,
>)
    ensures
        r is None <==> annotations@.len() == 0,
        r matches Some(text) ==> text@ == review_text(annotations@) + (if any_quoted(
            annotations@,
            comments@,
        ) {
            "\nReview comments already on those lines:\n"@ + quoted_text(annotations@, comments@)
        } else {
            Seq::empty()
        }),
{
    let mut out = match compose(annotations) {
        Some(text) => text,
        None => {
            return None;
        },
    };
    let notes = annotations.iter();
    let mut quoted = String::new();
    let mut any: bool = false;
    assert(comments@.take(0) =~= Seq::<PrComment>::empty());
    for i in 0..comments.len()
        invariant
            notes@ == annotations@,
            quoted@ =~= quoted_text(annotations@, comments@.take(i as int)),
            any == exists|j: int|
                0 <= j < i && is_noted(
                    annotations@,
                    (#[trigger] comments@[j]).file@,
                    comments@[j].line,
                ),
    {
        proof {
            assert(comments@.take(i + 1).drop_last() =~= comments@.take(i as int));
            assert(comments@.take(i + 1).last() == comments@[i as int]);
        }
        if noted(notes, comments[i].file.as_str(), comments[i].line) {
            any = true;
            push_comment(&mut quoted, &comments[i]);
        }
    }
    assert(comments@.take(comments@.len() as int) =~= comments@);
    if any {
        let ghost plain = out@;
        out.append("\nReview comments already on those lines:\n");
        out.append(quoted.as_str());
        assert(out@ =~= plain + ("\nReview comments already on those lines:\n"@ + quoted@));
    } else {
        assert(out@ =~= review_text(annotations@) + Seq::<char>::empty());
    }
    Some(out)
}

proof fn lemma_filter_position<T>(s: Seq<T>, f: spec_fn(T) -> bool, i: int)
    requires
        0 <= i < s.len(),
        f(s[i]),
    ensures
        s.take(i).filter(f).len() < s.filter(f).len(),
        s.filter(f)[s.take(i).filter(f).len() as int] == s[i],
        s.take(i + 1).filter(f).len() == s.take(i).filter(f).len() + 1,
{
    s.take(i).lemma_filter_push(s[i], f);
    assert(s.take(i + 1) =~= s.take(i).push(s[i]));
    Seq::filter_distributes_over_add(s.take(i + 1), s.skip(i + 1), f);
    assert(s =~= s.take(i + 1) + s.skip(i + 1));
}

proof fn lemma_filter_ascends(s: Seq<Annotation>, f: spec_fn(Annotation) -> bool)
    requires
        lines_ascend(s),
    ensures
        lines_ascend(s.filter(f)),
    decreases s.len(),
{
    reveal(Seq::filter);
    if s.len() > 0 {
        let front = s.drop_last();
        assert forall|i: int, j: int| 0 <= i < j < front.len() implies (
        #[trigger] front[i]).anchor.line <= (#[trigger] front[j]).anchor.line by {
            assert(s[i].anchor.line <= s[j].anchor.line);
        }
        lemma_filter_ascends(front, f);
        let kept = front.filter(f);
        let r = s.filter(f);
        assert forall|i: int, j: int| 0 <= i < j < r.len() implies (#[trigger] r[i]).anchor.line <= (
        #[trigger] r[j]).anchor.line by {
            if j < kept.len() {
                assert(kept[i].anchor.line <= kept[j].anchor.line);
            } else {
                front.lemma_filter_contains_rev(f, kept[i]);
                let k = choose|k: int| 0 <= k < front.len() && front[k] == kept[i];
                assert(s[k].anchor.line <= s[s.len() - 1].anchor.line);
            }
        }
    }
}

/// A review reads in order: of two notes the one that comes first is on a file
/// that comes first, or on the same file and not on a later line.
pub proof fn reviews_read_in_order(notes: Seq<Annotation>, i: int, j: int)
    requires
        0 <= i < j < reading_order(notes).len(),
    ensures
        ({
            let a = reading_order(notes)[i];
            let b = reading_order(notes)[j];
            ||| path_less(a.anchor.file@, b.anchor.file@)
            ||| same_path(a.anchor.file@, b.anchor.file@) && a.anchor.line <= b.anchor.line
        }),
{
    let key = |a: Annotation| a.at();
    let lined = by_line(notes);
    let r = reading_order(notes);
    let a = r[i];
    let b = r[j];
    sorting_is_stable(lined, key);
    assert(!path_less(key(r[j]), key(r[i])));
    path_order_total(key(a), key(b));
    if same_path(key(a), key(b)) {
        let p = key(b);
        let f = |x: Annotation| same_path(key(x), p);
        assert(standing_at(r, key, p) == standing_at(lined, key, p));
        sorted_lines_ascend(notes);
        lemma_filter_ascends(lined, f);
        lemma_filter_position(r, f, i);
        lemma_filter_position(r, f, j);
        let head = r.take(j);
        Seq::filter_distributes_over_add(r.take(i + 1), head.skip(i + 1), f);
        assert(head =~= r.take(i + 1) + head.skip(i + 1));
        let x = r.take(i).filter(f).len() as int;
        let y = r.take(j).filter(f).len() as int;
        assert(x < y);
        assert(lined.filter(f)[x].anchor.line <= lined.filter(f)[y].anchor.line);
    }
}

} // verus!
