//! What a note is about, and what a review says.

use vstd::prelude::*;
use vstd::string::*;

use crate::annotate::review::{
    by_line, comment_author, comment_text, file_shown, indented, is_noted, note_text, notes_text,
    placed_by_line, quoted_text, reading_order, review_heading, review_text,
};
use crate::annotate::{line_content, numbered, says, line_hash, found, Annotation, Kind, Located};
use crate::forge::PrComment;
use crate::model::DiffLine;
use crate::paths::same_path;
use crate::sorting::{sorting_is_stable, sorting_keeps_items, Pathed};
use crate::text::reading::blank;
use crate::text::{decimal_of, has_text, is_space, occurs_at, trimmed_end};

verus! {

/// What a line says is what stands on it: without the mark of the diff before it
/// and the white space behind it, and nothing else is left out.
pub proof fn a_line_says_what_stands_on_it(mark: char, code: Seq<char>, after: Seq<char>)
    requires
        mark == '+' || mark == '-' || mark == ' ',
        code.len() > 0 ==> !is_space(code.last()),
        blank(after),
    ensures
        line_content(seq![mark] + code + after) == code,
{
    let line = seq![mark] + code + after;
    assert(line.skip(1) =~= code + after);
    lemma_trim_end(code, after);
}

proof fn lemma_trim_end(code: Seq<char>, after: Seq<char>)
    requires
        code.len() > 0 ==> !is_space(code.last()),
        blank(after),
    ensures
        trimmed_end(code + after) == code,
    decreases after.len(),
{
    let s = code + after;
    if after.len() == 0 {
        assert(s =~= code);
    } else {
        let front = after.drop_last();
        assert(is_space(after[after.len() - 1]));
        assert(s.last() == after.last());
        assert(s.drop_last() =~= code + front);
        assert(blank(front)) by {
            assert forall|i: int| 0 <= i < front.len() implies is_space(#[trigger] front[i]) by {
                assert(is_space(after[i]));
            }
        }
        lemma_trim_end(code, front);
        assert(trimmed_end(s) == trimmed_end(s.drop_last()));
    }
}

/// The line with some number is the first that has it, and there is none where no
/// line has it.
pub proof fn the_first_line_of_a_number_has_it(lines: Seq<DiffLine>, n: u32)
    ensures
        match numbered(lines, n) {
            Some(line) => exists|i: int|
                0 <= i < lines.len() && #[trigger] lines[i] == line && line.new_line == Some(n)
                    && forall|j: int|
                    0 <= j < i ==> (#[trigger] lines[j]).new_line != Some(n),
            None => forall|j: int|
                0 <= j < lines.len() ==> (#[trigger] lines[j]).new_line != Some(n),
        },
    decreases lines.len(),
{
    if lines.len() > 0 {
        if lines[0].new_line == Some(n) {
            assert(lines[0] == numbered(lines, n)->0);
        } else {
            let rest = lines.skip(1);
            the_first_line_of_a_number_has_it(rest, n);
            match numbered(rest, n) {
                Some(line) => {
                    let i = choose|i: int|
                        0 <= i < rest.len() && #[trigger] rest[i] == line && line.new_line == Some(n)
                            && forall|j: int|
                            0 <= j < i ==> (#[trigger] rest[j]).new_line != Some(n);
                    assert(lines[i + 1] == line);
                    assert forall|j: int| 0 <= j < i + 1 implies (#[trigger] lines[j]).new_line
                        != Some(n) by {
                        if j > 0 {
                            assert(lines[j] == rest[j - 1]);
                        }
                    }
                },
                None => {
                    assert forall|j: int| 0 <= j < lines.len() implies (
                    #[trigger] lines[j]).new_line != Some(n) by {
                        if j > 0 {
                            assert(lines[j] == rest[j - 1]);
                        }
                    }
                },
            }
        }
    }
}

/// A note is found again on the line that it was made on while that line still says
/// what it said, and is given up once no line up to forty away says it.
pub proof fn a_note_is_found_within_forty_lines(lines: Seq<DiffLine>, line: u32, hash: u64)
    ensures
        says(lines, line as int, hash) ==> found(lines, line, hash) == Located::Exact(line),
        !says(lines, line as int, hash) && (forall|n: int|
            line - 40 <= n <= line + 40 ==> !says(lines, n, hash)) ==> found(lines, line, hash)
            == Located::Orphaned,
        (exists|n: int| line - 40 <= n <= line + 40 && says(lines, n, hash)) ==> found(
            lines,
            line,
            hash,
        ).place() is Some,
        forall|n: int| #[trigger]
            says(lines, n, hash) <==> 0 <= n <= u32::MAX && (numbered(lines, n as u32) matches Some(
                l,
            ) && line_hash(l.text@) == hash),
{
    crate::annotate::notes_follow_their_line(lines, line, hash);
}

/// What a note says in a review: where it stands, what kind of note it is, and its
/// words, with its further lines set in.
pub open spec fn block(file: Seq<char>, note: Annotation) -> Seq<char> {
    file + ":"@ + decimal_of(note.anchor.line as nat) + " ("@ + (match note.kind {
        Kind::Issue => "issue"@,
        Kind::Suggestion => "suggestion"@,
        Kind::Question => "question"@,
        Kind::Note => "note"@,
    }) + ")\n  "@ + set_in(note.text@)
}

/// A text whose lines behind the first are set in by two spaces.
pub open spec fn set_in(text: Seq<char>) -> Seq<char>
    decreases text.len(),
{
    if text.len() == 0 {
        Seq::empty()
    } else if text[0] == '\n' {
        seq!['\n', ' ', ' '] + set_in(text.skip(1))
    } else {
        seq![text[0]] + set_in(text.skip(1))
    }
}

proof fn lemma_set_in_push(text: Seq<char>, c: char)
    ensures
        set_in(text.push(c)) == set_in(text) + (if c == '\n' {
            seq!['\n', ' ', ' ']
        } else {
            seq![c]
        }),
    decreases text.len(),
{
    let all = text.push(c);
    if text.len() == 0 {
        assert(all.skip(1) =~= Seq::<char>::empty());
        assert(set_in(all.skip(1)) =~= Seq::<char>::empty());
        assert(set_in(all) =~= set_in(text) + (if c == '\n' {
            seq!['\n', ' ', ' ']
        } else {
            seq![c]
        }));
    } else {
        assert(all.skip(1) =~= text.skip(1).push(c));
        lemma_set_in_push(text.skip(1), c);
        assert(set_in(all) =~= set_in(text) + (if c == '\n' {
            seq!['\n', ' ', ' ']
        } else {
            seq![c]
        }));
    }
}

proof fn lemma_indented(text: Seq<char>)
    ensures
        indented(text) == set_in(text),
    decreases text.len(),
{
    reveal_strlit("\n  ");
    assert("\n  "@ =~= seq!['\n', ' ', ' ']);
    if text.len() > 0 {
        let front = text.drop_last();
        lemma_indented(front);
        lemma_set_in_push(front, text.last());
        assert(front.push(text.last()) =~= text);
        assert(indented(text) =~= set_in(text));
    } else {
        assert(indented(text) =~= set_in(text));
    }
}

proof fn lemma_notes_hold(all: Seq<Annotation>, some: Seq<Annotation>, i: int)
    requires
        0 <= i < some.len(),
    ensures
        has_text(notes_text(all, some), block(file_shown(all, some[i].anchor.file@), some[i])),
    decreases some.len(),
{
    let text = notes_text(all, some);
    let before = notes_text(all, some.drop_last());
    let own = note_text(file_shown(all, some.last().anchor.file@), some.last());
    assert(text == before + own);
    if i < some.len() - 1 {
        let front = some.drop_last();
        lemma_notes_hold(all, front, i);
        let b = block(file_shown(all, front[i].anchor.file@), front[i]);
        let k = choose|k: int| occurs_at(before, b, k);
        assert(text.subrange(k, k + b.len()) =~= before.subrange(k, k + b.len()));
        assert(occurs_at(text, b, k));
    } else {
        let b = block(file_shown(all, some[i].anchor.file@), some[i]);
        lemma_indented(some[i].text@);
        reveal_strlit("\n");
        assert(own =~= seq!['\n'] + b + seq!['\n']);
        let k = before.len() as int + 1;
        assert(text.subrange(k, k + b.len()) =~= b);
        assert(occurs_at(text, b, k));
    }
}

proof fn lemma_placed_holds(s: Seq<Annotation>, x: Annotation, y: Annotation)
    ensures
        placed_by_line(s, x).contains(y) <==> s.contains(y) || x == y,
        placed_by_line(s, x).len() == s.len() + 1,
    decreases s.len(),
{
    let r = placed_by_line(s, x);
    if s.len() > 0 && s.last().anchor.line > x.anchor.line {
        let front = s.drop_last();
        lemma_placed_holds(front, x, y);
        let p = placed_by_line(front, x);
        assert(r == p.push(s.last()));
        if r.contains(y) {
            let k = r.index_of(y);
            if k < p.len() {
                assert(p[k] == y);
                if front.contains(y) {
                    let m = front.index_of(y);
                    assert(s[m] == y);
                }
            } else {
                assert(s[s.len() - 1] == y);
            }
        }
        if s.contains(y) {
            let k = s.index_of(y);
            if k < front.len() {
                assert(front[k] == y);
                let m = p.index_of(y);
                assert(r[m] == y);
            } else {
                assert(r[r.len() - 1] == y);
            }
        }
        if x == y {
            let m = p.index_of(y);
            assert(r[m] == y);
        }
    } else {
        assert(r == s.push(x));
        if s.contains(y) {
            let k = s.index_of(y);
            assert(r[k] == y);
        }
        if x == y {
            assert(r[s.len() as int] == y);
        }
        if r.contains(y) {
            let k = r.index_of(y);
            if k < s.len() {
                assert(s[k] == y);
            }
        }
    }
}

proof fn lemma_by_line_holds(s: Seq<Annotation>, y: Annotation)
    ensures
        by_line(s).contains(y) <==> s.contains(y),
        by_line(s).len() == s.len(),
    decreases s.len(),
{
    if s.len() > 0 {
        let front = s.drop_last();
        lemma_by_line_holds(front, y);
        lemma_placed_holds(by_line(front), s.last(), y);
        if s.contains(y) {
            let k = s.index_of(y);
            if k < front.len() {
                assert(front[k] == y);
            }
        }
        if front.contains(y) {
            let k = front.index_of(y);
            assert(s[k] == y);
        }
        if s.last() == y {
            assert(s[s.len() - 1] == y);
        }
    }
}

/// Every note is in the review, where it stands, of what kind it is and in its own
/// words; the review says how many there are, and holds no more blocks than notes.
pub proof fn every_note_is_in_the_review(notes: Seq<Annotation>, note: Annotation)
    requires
        notes.contains(note),
    ensures
        has_text(review_text(notes), block(file_shown(notes, note.anchor.file@), note)),
        same_path(file_shown(notes, note.anchor.file@), note.anchor.file@),
        ("Review — "@ + decimal_of(notes.len())).is_prefix_of(review_text(notes)),
        reading_order(notes).len() == notes.len(),
{
    let order = reading_order(notes);
    let key = |a: Annotation| a.at();
    lemma_by_line_holds(notes, note);
    sorting_keeps_items(by_line(notes), key, note);
    sorting_is_stable(by_line(notes), key);
    assert(order.contains(note));
    let i = order.index_of(note);
    lemma_notes_hold(notes, order, i);
    let text = review_text(notes);
    let head = review_heading(notes.len());
    let body = notes_text(notes, order);
    let b = block(file_shown(notes, note.anchor.file@), note);
    let k = choose|k: int| occurs_at(body, b, k);
    let at = head.len() + k;
    assert(text.subrange(at, at + b.len()) =~= body.subrange(k, k + b.len()));
    assert(occurs_at(text, b, at));
    let lead = "Review — "@ + decimal_of(notes.len());
    assert(text.subrange(0, lead.len() as int) =~= lead);
    lemma_shown(notes, note.anchor.file@);
}

proof fn lemma_shown(s: Seq<Annotation>, p: Seq<char>)
    ensures
        same_path(file_shown(s, p), p),
    decreases s.len(),
{
    if s.len() > 0 && !same_path(s[0].anchor.file@, p) {
        lemma_shown(s.skip(1), p);
    }
}

/// What somebody else said on a line in a review: where, who, and their words.
pub open spec fn quote(c: PrComment) -> Seq<char> {
    seq!['\n'] + c.file@ + ":"@ + decimal_of(c.line as nat) + " — "@ + (if c.author@.len() == 0 {
        "a commenter"@
    } else {
        seq!['@'] + c.author@
    }) + "\n  "@ + set_in(c.body@) + seq!['\n']
}

/// A comment is quoted exactly where a note stands on its line of its file, and
/// comments are quoted in the order they were made.
pub proof fn comments_on_noted_lines_are_quoted(
    notes: Seq<Annotation>,
    a: Seq<PrComment>,
    b: Seq<PrComment>,
    c: PrComment,
)
    ensures
        quoted_text(notes, Seq::empty()).len() == 0,
        quoted_text(notes, seq![c]) == (if exists|i: int|
            0 <= i < notes.len() && same_path((#[trigger] notes[i]).anchor.file@, c.file@)
                && notes[i].anchor.line == c.line {
            quote(c)
        } else {
            Seq::empty()
        }),
        quoted_text(notes, a + b) == quoted_text(notes, a) + quoted_text(notes, b),
    decreases b.len(),
{
    assert(seq![c].drop_last() =~= Seq::<PrComment>::empty());
    assert(quoted_text(notes, seq![c].drop_last()) =~= Seq::<char>::empty());
    assert(seq![c].last() == c);
    lemma_indented(c.body@);
    reveal_strlit("\n");
    reveal_strlit("@");
    assert(comment_author(c.author@) =~= (if c.author@.len() == 0 {
        "a commenter"@
    } else {
        seq!['@'] + c.author@
    }));
    assert(comment_text(c) =~= quote(c));
    assert(quoted_text(notes, seq![c]) =~= (if is_noted(notes, c.file@, c.line) {
        quote(c)
    } else {
        Seq::empty()
    }));
    if b.len() == 0 {
        assert(a + b =~= a);
        assert(quoted_text(notes, a + b) =~= quoted_text(notes, a) + quoted_text(notes, b));
    } else {
        assert((a + b).drop_last() =~= a + b.drop_last());
        assert((a + b).last() == b.last());
        comments_on_noted_lines_are_quoted(notes, a, b.drop_last(), c);
        assert(quoted_text(notes, a + b) =~= quoted_text(notes, a) + quoted_text(notes, b));
    }
}

} // verus!
