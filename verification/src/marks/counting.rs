//! What is counted as a mark.

use vstd::prelude::*;
use vstd::string::*;

use crate::marks::{capped, count_in, joins, marked, marks_of, standalone, standing, tally, Mark};
use crate::model::{Diff, DiffLine, DiffLineKind};
use crate::text::{alphanumeric, occurs_at};

verus! {

proof fn lemma_standing_zero(text: Seq<char>, word: Seq<char>, upto: int)
    ensures
        standing(text, word, upto) > 0 <==> exists|i: int|
            0 <= i < upto && #[trigger] occurs_at(text, word, i) && standalone(text, i, word.len()),
    decreases upto,
{
    if upto > 0 {
        lemma_standing_zero(text, word, upto - 1);
        if occurs_at(text, word, upto - 1) && standalone(text, upto - 1, word.len()) {
            assert(0 <= upto - 1 < upto);
        }
        if exists|i: int|
            0 <= i < upto && #[trigger] occurs_at(text, word, i) && standalone(text, i, word.len()) {
            let i = choose|i: int|
                0 <= i < upto && #[trigger] occurs_at(text, word, i) && standalone(
                    text,
                    i,
                    word.len(),
                );
            if i < upto - 1 {
                assert(standing(text, word, upto - 1) > 0);
            }
        }
        if standing(text, word, upto - 1) > 0 {
            let i = choose|i: int|
                0 <= i < upto - 1 && #[trigger] occurs_at(text, word, i) && standalone(
                    text,
                    i,
                    word.len(),
                );
            assert(0 <= i < upto);
        }
    }
}

/// A word counts where it stands on its own: with no letter, digit or underscore
/// right before it nor right behind it.
pub proof fn a_word_counts_where_it_stands_alone(before: Seq<char>, word: Seq<char>, after: Seq<char>)
    requires
        word.len() > 0,
        before.len() > 0 ==> !alphanumeric(before.last()) && before.last() != '_',
        after.len() > 0 ==> !alphanumeric(after[0]) && after[0] != '_',
    ensures
        standing(before + word + after, word, (before + word + after).len() as int) > 0,
{
    let text = before + word + after;
    let i = before.len() as int;
    assert(text.subrange(i, i + word.len()) =~= word);
    assert(occurs_at(text, word, i));
    if before.len() > 0 {
        assert(text[i - 1] == before.last());
    }
    if after.len() > 0 {
        assert(text[i + word.len()] == after[0]);
    }
    lemma_standing_zero(text, word, text.len() as int);
}

/// A text in which a word never stands on its own counts none.
pub proof fn a_word_inside_another_does_not_count(text: Seq<char>, word: Seq<char>)
    requires
        forall|i: int| #[trigger]
            occurs_at(text, word, i) ==> (i > 0 && (alphanumeric(text[i - 1]) || text[i - 1] == '_'))
                || (i + word.len() < text.len() && (alphanumeric(text[i + word.len()]) || text[i
                + word.len()] == '_')),
    ensures
        standing(text, word, text.len() as int) == 0,
{
    lemma_standing_zero(text, word, text.len() as int);
}

proof fn lemma_front(a: Seq<char>, rest: Seq<char>, word: Seq<char>, upto: int)
    requires
        word.len() > 0,
        rest.len() > 0,
        !joins(rest[0]),
        !word.contains(rest[0]),
        upto <= a.len(),
    ensures
        standing(a + rest, word, upto) == standing(a, word, upto),
    decreases upto,
{
    if upto > 0 {
        lemma_front(a, rest, word, upto - 1);
        let text = a + rest;
        let i = upto - 1;
        let n = word.len();
        assert(text[a.len() as int] == rest[0]);
        if occurs_at(text, word, i) && i + n > a.len() {
            let k = a.len() - i;
            assert(text.subrange(i, i + n)[k] == text[i + k]);
            assert(word[k] == rest[0]);
            assert(word.contains(word[k]));
        }
        if i + n <= a.len() {
            assert(text.subrange(i, i + n) =~= a.subrange(i, i + n));
            if i + n < a.len() {
                assert(text[i + n] == a[i + n]);
            }
            if i > 0 {
                assert(text[i - 1] == a[i - 1]);
            }
        }
    }
}

proof fn lemma_back(a: Seq<char>, b: Seq<char>, word: Seq<char>, upto: int)
    requires
        word.len() > 0,
        a.len() > 0,
        !joins(a.last()),
        0 <= upto <= b.len(),
    ensures
        standing(a + b, word, a.len() + upto) == standing(a + b, word, a.len() as int) + standing(
            b,
            word,
            upto,
        ),
    decreases upto,
{
    if upto > 0 {
        lemma_back(a, b, word, upto - 1);
        let text = a + b;
        let i = upto - 1;
        let at = a.len() + i;
        let n = word.len();
        if i + n <= b.len() {
            assert(text.subrange(at, at + n) =~= b.subrange(i, i + n));
            if i + n < b.len() {
                assert(text[at + n] == b[i + n]);
            }
        }
        if i > 0 {
            assert(text[at - 1] == b[i - 1]);
        } else {
            assert(text[at - 1] == a.last());
        }
    }
}

/// A word that a text repeats counts as often as it stands there: what two texts
/// count with a separator between them is what each counts.
pub proof fn every_standing_counts(a: Seq<char>, gap: char, b: Seq<char>, word: Seq<char>)
    requires
        word.len() > 0,
        !word.contains(gap),
        !alphanumeric(gap),
        gap != '_',
    ensures
        standing(a.push(gap) + b, word, (a.push(gap) + b).len() as int) == standing(
            a,
            word,
            a.len() as int,
        ) + standing(b, word, b.len() as int),
{
    let head = a.push(gap);
    let text = head + b;
    lemma_back(head, b, word, b.len() as int);
    assert(text =~= a + (seq![gap] + b));
    lemma_front(a, seq![gap] + b, word, a.len() as int);
    // The separator itself starts no word.
    let i = a.len() as int;
    assert(text[i] == gap);
    if occurs_at(text, word, i) {
        assert(text.subrange(i, i + word.len())[0] == text[i]);
        assert(word.contains(word[0]));
    }
}

/// Only the lines that a diff adds count, and each of them counts by itself.
pub proof fn only_added_lines_count(a: Seq<DiffLine>, b: Seq<DiffLine>, line: DiffLine, mark: Mark)
    ensures
        marked(Seq::empty(), mark) == 0,
        marked(seq![line], mark) == (if line.kind == DiffLineKind::Added {
            standing(
                line.text@,
                match mark {
                    Mark::Todo => "TODO"@,
                    Mark::Fixme => "FIXME"@,
                    Mark::Hack => "HACK"@,
                    Mark::Xxx => "XXX"@,
                },
                line.text@.len() as int,
            )
        } else {
            0
        }),
        marked(a + b, mark) == marked(a, mark) + marked(b, mark),
    decreases b.len(),
{
    assert(seq![line].drop_last() =~= Seq::<DiffLine>::empty());
    assert(marked(seq![line].drop_last(), mark) == 0);
    assert(seq![line].last() == line);
    if b.len() == 0 {
        assert(a + b =~= a);
    } else {
        assert((a + b).drop_last() =~= a + b.drop_last());
        assert((a + b).last() == b.last());
        only_added_lines_count(a, b.drop_last(), line, mark);
    }
}

/// What is reported of a diff is each kind of mark that its lines carry, with how
/// many there are, and no kind that there is none of. A diff without text carries
/// none.
pub proof fn marks_are_reported_as_counted(diff: Diff, mark: Mark)
    ensures
        marked(diff.lines(), mark) <= usize::MAX ==> count_in(marks_of(diff), mark) == marked(
            diff.lines(),
            mark,
        ),
        forall|i: int| 0 <= i < marks_of(diff).len() ==> (#[trigger] marks_of(diff)[i]).1 > 0,
        !(diff is Text) ==> marks_of(diff).len() == 0,
{
    let f = |m: Mark| capped(marked(diff.lines(), m));
    let s0 = Seq::<Mark>::empty();
    let s1 = seq![Mark::Todo];
    let s2 = seq![Mark::Todo, Mark::Fixme];
    let s3 = seq![Mark::Todo, Mark::Fixme, Mark::Hack];
    let s4 = seq![Mark::Todo, Mark::Fixme, Mark::Hack, Mark::Xxx];
    assert(s4.drop_last() =~= s3);
    assert(s3.drop_last() =~= s2);
    assert(s2.drop_last() =~= s1);
    assert(s1.drop_last() =~= s0);
    let t1 = tally(f, s1);
    let t2 = tally(f, s2);
    let t3 = tally(f, s3);
    let t4 = tally(f, s4);
    assert(tally(f, s0) =~= Seq::<(Mark, nat)>::empty());
    lemma_count_push(tally(f, s0), Mark::Todo, f(Mark::Todo), mark);
    lemma_count_push(t1, Mark::Fixme, f(Mark::Fixme), mark);
    lemma_count_push(t2, Mark::Hack, f(Mark::Hack), mark);
    lemma_count_push(t3, Mark::Xxx, f(Mark::Xxx), mark);
    lemma_count_absent(t1, Mark::Fixme);
    lemma_count_absent(t2, Mark::Hack);
    lemma_count_absent(t3, Mark::Xxx);
    if !(diff is Text) {
        assert(diff.lines() =~= Seq::<DiffLine>::empty());
        assert(marked(diff.lines(), Mark::Todo) == 0);
        assert(marked(diff.lines(), Mark::Fixme) == 0);
        assert(marked(diff.lines(), Mark::Hack) == 0);
        assert(marked(diff.lines(), Mark::Xxx) == 0);
    }
}

proof fn lemma_count_push(counts: Seq<(Mark, nat)>, kind: Mark, n: nat, mark: Mark)
    ensures
        count_in(counts.push((kind, n)), mark) == (if count_in(counts, mark) > 0 || exists|i: int|
            0 <= i < counts.len() && (#[trigger] counts[i]).0 == mark {
            count_in(counts, mark)
        } else if kind == mark {
            n
        } else {
            0
        }),
    decreases counts.len(),
{
    let all = counts.push((kind, n));
    if counts.len() == 0 {
        assert(all.skip(1) =~= Seq::<(Mark, nat)>::empty());
        assert(count_in(all.skip(1), mark) == 0);
    } else {
        assert(all[0] == counts[0]);
        if counts[0].0 != mark {
            let rest = counts.skip(1);
            lemma_count_push(rest, kind, n, mark);
            assert(all.skip(1) =~= rest.push((kind, n)));
            if exists|i: int| 0 <= i < counts.len() && (#[trigger] counts[i]).0 == mark {
                let i = choose|i: int| 0 <= i < counts.len() && (#[trigger] counts[i]).0 == mark;
                assert(rest[i - 1].0 == mark);
            }
            if exists|i: int| 0 <= i < rest.len() && (#[trigger] rest[i]).0 == mark {
                let i = choose|i: int| 0 <= i < rest.len() && (#[trigger] rest[i]).0 == mark;
                assert(counts[i + 1].0 == mark);
            }
        }
    }
}

proof fn lemma_count_absent(counts: Seq<(Mark, nat)>, mark: Mark)
    requires
        forall|i: int| 0 <= i < counts.len() ==> (#[trigger] counts[i]).0 != mark,
    ensures
        count_in(counts, mark) == 0,
    decreases counts.len(),
{
    if counts.len() > 0 {
        assert(counts[0].0 != mark);
        let rest = counts.skip(1);
        assert forall|i: int| 0 <= i < rest.len() implies (#[trigger] rest[i]).0 != mark by {
            assert(counts[i + 1].0 != mark);
        }
        lemma_count_absent(rest, mark);
    }
}

} // verus!
