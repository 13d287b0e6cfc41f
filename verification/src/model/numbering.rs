//! Which number a line of a diff has in the file.

use vstd::prelude::*;
use vstd::string::*;

use crate::model::{
    hunk_start, kind_of, lemma_one_number_each, numbers_from, DiffLine, DiffLineKind,
};
use crate::seqs::{lemma_index_is, lemma_index_of};
use crate::text::{decimal_of, decimal_reads_back, is_digit, lemma_decimal};

verus! {

/// Whether a line stands in the file as it is now.
pub open spec fn stands_now(line: DiffLine) -> bool {
    line.kind == DiffLineKind::Added || line.kind == DiffLineKind::Context
}

/// How many of the lines from `from` up to `to` stand in the file as it is now.
pub open spec fn standing(lines: Seq<DiffLine>, from: int, to: int) -> nat
    decreases to - from,
{
    if from >= to {
        0
    } else {
        standing(lines, from, to - 1) + if stands_now(lines[to - 1]) {
            1nat
        } else {
            0nat
        }
    }
}

proof fn lemma_from_hunk(lines: Seq<DiffLine>, next: Option<nat>, h: int)
    requires
        0 <= h < lines.len(),
        lines[h].kind == DiffLineKind::Hunk,
    ensures
        numbers_from(lines, next).skip(h + 1) == numbers_from(
            lines.skip(h + 1),
            hunk_start(lines[h].text@),
        ),
        numbers_from(lines, next)[h] is None,
    decreases h,
{
    lemma_one_number_each(lines, next);
    let all = numbers_from(lines, next);
    let rest = lines.skip(1);
    if h == 0 {
        assert(all.skip(1) =~= numbers_from(rest, hunk_start(lines[0].text@)));
    } else {
        let after = if lines[0].kind == DiffLineKind::Hunk {
            hunk_start(lines[0].text@)
        } else if stands_now(lines[0]) && next is Some && next->0 <= u32::MAX {
            Some(next->0 + 1)
        } else {
            next
        };
        assert(all.skip(1) =~= numbers_from(rest, after));
        lemma_from_hunk(rest, after, h - 1);
        assert(rest.skip(h) =~= lines.skip(h + 1));
        assert(all.skip(1).skip(h) =~= all.skip(h + 1));
        assert(all[h] == all.skip(1)[h - 1]);
    }
}

proof fn lemma_counted(lines: Seq<DiffLine>, n: nat, i: int)
    requires
        0 <= i < lines.len(),
        forall|k: int| 0 <= k <= i ==> (#[trigger] lines[k]).kind != DiffLineKind::Hunk,
        n + i <= u32::MAX,
    ensures
        numbers_from(lines, Some(n))[i] == (if stands_now(lines[i]) {
            Some((n + standing(lines, 0, i)) as u32)
        } else {
            None
        }),
    decreases i,
{
    lemma_one_number_each(lines, Some(n));
    assert(lines[0].kind != DiffLineKind::Hunk);
    if i > 0 {
        let rest = lines.skip(1);
        let m = if stands_now(lines[0]) {
            n + 1
        } else {
            n
        };
        assert forall|k: int| 0 <= k <= i - 1 implies (#[trigger] rest[k]).kind
            != DiffLineKind::Hunk by {
            assert(lines[k + 1].kind != DiffLineKind::Hunk);
        }
        lemma_counted(rest, m, i - 1);
        lemma_standing_shift(lines, 0, i);
        lemma_one_number_each(rest, Some(m));
        assert(numbers_from(lines, Some(n))[i] == numbers_from(rest, Some(m))[i - 1]);
    }
}

proof fn lemma_standing_shift(lines: Seq<DiffLine>, from: int, to: int)
    requires
        0 <= from < to <= lines.len(),
    ensures
        standing(lines, from, to) == standing(lines.skip(from + 1), 0, to - from - 1) + if stands_now(
            lines[from],
        ) {
            1nat
        } else {
            0nat
        },
    decreases to,
{
    if to > from + 1 {
        lemma_standing_shift(lines, from, to - 1);
        assert(lines.skip(from + 1)[to - from - 2] == lines[to - 1]);
    } else {
        assert(standing(lines, from, to - 1) == 0);
    }
}

proof fn lemma_unknown(lines: Seq<DiffLine>, i: int)
    requires
        0 <= i < lines.len(),
        forall|k: int| 0 <= k <= i ==> (#[trigger] lines[k]).kind != DiffLineKind::Hunk,
    ensures
        numbers_from(lines, None)[i] is None,
    decreases i,
{
    lemma_one_number_each(lines, None);
    assert(lines[0].kind != DiffLineKind::Hunk);
    if i > 0 {
        let rest = lines.skip(1);
        assert forall|k: int| 0 <= k <= i - 1 implies (#[trigger] rest[k]).kind
            != DiffLineKind::Hunk by {
            assert(lines[k + 1].kind != DiffLineKind::Hunk);
        }
        lemma_unknown(rest, i - 1);
        lemma_one_number_each(rest, None);
        assert(numbers_from(lines, None)[i] == numbers_from(rest, None)[i - 1]);
    }
}

/// The lines of a hunk are numbered from where its header says it starts, one
/// after another: a line that stands in the file now has the number of the start
/// and as many more as such lines come before it in the hunk, and a removed line
/// has none.
pub proof fn lines_are_numbered_from_their_hunk(lines: Seq<DiffLine>, h: int, i: int, start: nat)
    requires
        0 <= h < i < lines.len(),
        lines[h].kind == DiffLineKind::Hunk,
        forall|k: int| h < k <= i ==> (#[trigger] lines[k]).kind != DiffLineKind::Hunk,
        hunk_start(lines[h].text@) == Some(start),
        start + (i - h) <= u32::MAX,
    ensures
        numbers_from(lines, None)[i] == (if stands_now(lines[i]) {
            Some((start + standing(lines, h + 1, i)) as u32)
        } else {
            None
        }),
{
    lemma_one_number_each(lines, None);
    lemma_from_hunk(lines, None, h);
    let rest = lines.skip(h + 1);
    assert forall|k: int| 0 <= k <= i - h - 1 implies (#[trigger] rest[k]).kind
        != DiffLineKind::Hunk by {
        assert(lines[k + h + 1].kind != DiffLineKind::Hunk);
    }
    lemma_counted(rest, start, i - h - 1);
    lemma_standing_shift(lines, h, i);
    lemma_standing_rest(lines, h + 1, i);
    assert(numbers_from(lines, None)[i] == numbers_from(lines, None).skip(h + 1)[i - h - 1]);
}

proof fn lemma_standing_rest(lines: Seq<DiffLine>, from: int, to: int)
    requires
        0 <= from <= to <= lines.len(),
    ensures
        standing(lines, from, to) == standing(lines.skip(from), 0, to - from),
    decreases to,
{
    if to > from {
        lemma_standing_rest(lines, from, to - 1);
        assert(lines.skip(from)[to - from - 1] == lines[to - 1]);
    }
}

/// A line before the first hunk has no number, and neither has a hunk's header.
pub proof fn headers_have_no_number(lines: Seq<DiffLine>, i: int)
    requires
        0 <= i < lines.len(),
        lines[i].kind == DiffLineKind::Hunk || forall|k: int|
            0 <= k <= i ==> (#[trigger] lines[k]).kind != DiffLineKind::Hunk,
    ensures
        numbers_from(lines, None)[i] is None,
{
    if lines[i].kind == DiffLineKind::Hunk {
        lemma_from_hunk(lines, None, i);
    } else {
        lemma_unknown(lines, i);
    }
}

/// The header of a hunk says where its new side starts behind the `+`, whatever
/// it says of the old side before it and of its length behind it.
pub proof fn a_hunk_says_where_it_starts(before: Seq<char>, start: nat, mark: char, after: Seq<char>)
    requires
        !before.contains('+'),
        start <= u32::MAX,
        mark == ',' || mark == ' ',
    ensures
        hunk_start(before.push('+') + decimal_of(start).push(mark) + after) == Some(start),
{
    let digits = decimal_of(start);
    let text = before.push('+') + digits.push(mark) + after;
    let n = before.len() as int;
    assert forall|j: int| 0 <= j < n implies text[j] != '+' by {
        assert(text[j] == before[j]);
        assert(before.contains(before[j]));
    }
    lemma_index_is(text, '+', n);
    let rest = text.skip(n + 1);
    assert(rest =~= digits.push(mark) + after);
    lemma_decimal(start);
    assert forall|j: int| 0 <= j < digits.len() implies rest[j] != ',' && rest[j] != ' ' by {
        assert(rest[j] == digits[j]);
        assert(is_digit(digits[j]));
    }
    lemma_index_of(rest, ',');
    lemma_index_of(rest, ' ');
    assert(rest[digits.len() as int] == mark);
    lemma_index_is(rest, mark, digits.len() as int);
    assert(rest.take(digits.len() as int) =~= digits);
    decimal_reads_back(start);
}

/// What a line of a diff is shows in how it starts: a line that was added starts
/// with a `+`, one that was removed with a `-`, and one that stayed with a space.
/// Lines with three of a mark and a space name the files, and a hunk's header
/// starts with two at-signs.
pub proof fn the_mark_says_what_a_line_is(mark: char, rest: Seq<char>)
    ensures
        mark == '+' && !"++ "@.is_prefix_of(rest) ==> kind_of(seq![mark] + rest)
            == DiffLineKind::Added,
        mark == '+' && "++ "@.is_prefix_of(rest) ==> kind_of(seq![mark] + rest)
            == DiffLineKind::Header,
        mark == '-' && !"-- "@.is_prefix_of(rest) ==> kind_of(seq![mark] + rest)
            == DiffLineKind::Removed,
        mark == '-' && "-- "@.is_prefix_of(rest) ==> kind_of(seq![mark] + rest)
            == DiffLineKind::Header,
        mark == ' ' ==> kind_of(seq![mark] + rest) == DiffLineKind::Context,
        mark == '@' && rest.len() > 0 && rest[0] == '@' ==> kind_of(seq![mark] + rest)
            == DiffLineKind::Hunk,
        kind_of(Seq::empty()) == DiffLineKind::Context,
        mark != '+' && mark != '-' && mark != ' ' && mark != '@' ==> kind_of(seq![mark] + rest)
            == DiffLineKind::Header,
{
    reveal_strlit("@@");
    reveal_strlit("+++ ");
    reveal_strlit("--- ");
    reveal_strlit("++ ");
    reveal_strlit("-- ");
    let text = seq![mark] + rest;
    assert(text.skip(1) =~= rest);
    assert("+++ "@.is_prefix_of(text) <==> mark == '+' && "++ "@.is_prefix_of(rest)) by {
        lemma_prefix(mark, rest, '+', "++ "@);
        assert("+++ "@ =~= seq!['+'] + "++ "@);
    }
    assert("--- "@.is_prefix_of(text) <==> mark == '-' && "-- "@.is_prefix_of(rest)) by {
        lemma_prefix(mark, rest, '-', "-- "@);
        assert("--- "@ =~= seq!['-'] + "-- "@);
    }
    assert("@@"@.is_prefix_of(text) <==> mark == '@' && seq!['@'].is_prefix_of(rest)) by {
        lemma_prefix(mark, rest, '@', seq!['@']);
        assert("@@"@ =~= seq!['@'] + seq!['@']);
    }
    if rest.len() > 0 && rest[0] == '@' {
        assert(rest.subrange(0, 1) =~= seq!['@']);
    }
}

proof fn lemma_prefix(mark: char, rest: Seq<char>, c: char, tail: Seq<char>)
    ensures
        (seq![c] + tail).is_prefix_of(seq![mark] + rest) <==> mark == c && tail.is_prefix_of(rest),
{
    let whole = seq![c] + tail;
    let text = seq![mark] + rest;
    if whole.is_prefix_of(text) {
        assert(text.subrange(0, whole.len() as int)[0] == whole[0]);
        assert(rest.subrange(0, tail.len() as int) =~= text.subrange(0, whole.len() as int).skip(1));
        assert(whole.skip(1) =~= tail);
    }
    if mark == c && tail.is_prefix_of(rest) {
        assert(text.subrange(0, whole.len() as int) =~= seq![mark] + rest.subrange(
            0,
            tail.len() as int,
        ));
    }
}

} // verus!
