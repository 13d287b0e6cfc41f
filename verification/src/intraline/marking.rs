//! What the marks on two compared lines say.

use vstd::prelude::*;

use crate::intraline::{
    bytes_before, changed_bytes, class_of, common_len, compared, concatenated, is_subsequence,
    kept, kept_masks, kept_tokens_are_common, lemma_body_bytes, lemma_bytes_monotone,
    lemma_ends_within, lemma_kept_masks_len, lemma_run_bound, lemma_run_end, lemma_run_start_in,
    lemma_spans_tile, nothing_longer_is_common, partner, run_end, run_len, run_start, spans_at,
    spans_of, spans_tile_the_line, tile, tokens_make_the_line, tokens_of, whole_line, Class, Span,
};
use crate::model::{DiffLine, DiffLineKind};
use crate::text::{alphanumeric, byte_len, is_space, lemma_byte_len_add};

verus! {

/// The text of a line of a diff: without the `+`, `-` or space at its front.
pub open spec fn body(line: Seq<char>) -> Seq<char> {
    if line.len() > 0 && (line[0] == '+' || line[0] == '-' || line[0] == ' ') {
        line.skip(1)
    } else {
        line
    }
}

/// Whether a byte of a line lies in a span that is marked so.
pub open spec fn covered(spans: Seq<Span>, at: int, changed: bool) -> bool {
    exists|i: int|
        0 <= i < spans.len() && (#[trigger] spans[i]).start <= at < spans[i].end
            && spans[i].changed == changed
}

/// At which byte of its line a word starts.
pub open spec fn word_start(line: Seq<char>, i: int) -> int {
    byte_len(line) - byte_len(body(line)) + byte_len(concatenated(tokens_of(body(line)).take(i)))
}

/// Whether a line is marked word by word: every byte of a word that is kept lies
/// in an unchanged span and in no changed one, every byte of another word the
/// other way round, and what stands before the words is unchanged.
pub open spec fn marked_by_word(line: Seq<char>, spans: Seq<Span>, keeps: Seq<bool>) -> bool {
    &&& forall|i: int, at: int, changed: bool|
        0 <= i < keeps.len() && #[trigger] word_start(line, i) <= at < word_start(line, i + 1)
            ==> #[trigger] covered(spans, at, changed) == (changed != keeps[i])
    &&& forall|at: int, changed: bool|
        0 <= at < byte_len(line) - byte_len(body(line)) ==> #[trigger] covered(spans, at, changed)
            == !changed
}

/// Whether no byte of a line is marked.
pub open spec fn left_alone(line: Seq<char>, spans: Seq<Span>) -> bool {
    forall|at: int, changed: bool|
        0 <= at < byte_len(line) ==> #[trigger] covered(spans, at, changed) == !changed
}

/// How many bytes the words take that are not kept.
pub open spec fn lost(words: Seq<Seq<char>>, keeps: Seq<bool>) -> nat
    decreases words.len(),
{
    if words.len() == 0 {
        0
    } else {
        lost(words.drop_last(), keeps) + if keeps[words.len() - 1] {
            0
        } else {
            byte_len(words.last())
        }
    }
}

/// Whether what two runs of words keep is the same on both sides, and nothing
/// longer is common to them.
pub open spec fn keep_the_most(
    a: Seq<Seq<char>>,
    b: Seq<Seq<char>>,
    x: Seq<bool>,
    y: Seq<bool>,
) -> bool {
    &&& x.len() == a.len()
    &&& y.len() == b.len()
    &&& kept(a, x) == kept(b, y)
    &&& forall|s: Seq<Seq<char>>|
        is_subsequence(s, a) && #[trigger] is_subsequence(s, b) ==> s.len() <= kept(a, x).len()
}

/// Whether two lines are too long to be compared, or would be marked for more
/// than three quarters.
pub open spec fn not_worth_marking(
    old: Seq<char>,
    new: Seq<char>,
    x: Seq<bool>,
    y: Seq<bool>,
) -> bool {
    ||| byte_len(body(old)) > 2000
    ||| byte_len(body(new)) > 2000
    ||| 4 * lost(tokens_of(body(old)), x) > 3 * byte_len(old)
    ||| 4 * lost(tokens_of(body(new)), y) > 3 * byte_len(new)
}

proof fn lemma_covered_rest(spans: Seq<Span>, r: Seq<Span>, n: int, end: int, c: bool, at: int, changed: bool)
    requires
        tile(spans, n as nat),
        0 <= n <= end <= usize::MAX,
        spans.len() > 0 && spans.last().changed == c ==> r == spans.update(
            spans.len() - 1,
            Span { end: end as usize, ..spans.last() },
        ),
        !(spans.len() > 0 && spans.last().changed == c) ==> r == spans.push(
            Span { start: n as usize, end: end as usize, changed: c },
        ),
        0 <= at < end,
    ensures
        at < n ==> covered(r, at, changed) == covered(spans, at, changed),
        at >= n ==> covered(r, at, changed) == (changed == c),
{
    let last = spans.len() - 1;
    let merged = spans.len() > 0 && spans.last().changed == c;
    assert forall|i: int| 0 <= i < spans.len() implies (#[trigger] spans[i]).end <= n by {
        lemma_ends_within(spans, n as nat, i);
    }
    if at < n {
        if covered(spans, at, changed) {
            let i = choose|i: int|
                0 <= i < spans.len() && (#[trigger] spans[i]).start <= at < spans[i].end
                    && spans[i].changed == changed;
            assert(r[i].start == spans[i].start && r[i].changed == spans[i].changed && at < r[i].end);
        }
        if covered(r, at, changed) {
            let i = choose|i: int|
                0 <= i < r.len() && (#[trigger] r[i]).start <= at < r[i].end && r[i].changed
                    == changed;
            assert(i < spans.len());
            assert(spans[i].start <= at && spans[i].changed == changed);
            if merged && i == last {
                assert(spans[i].end == n);
            }
        }
    } else {
        if merged {
            assert(spans[last].start <= spans[last].end);
        }
        assert(r[r.len() - 1].start <= at < r[r.len() - 1].end);
        assert(r[r.len() - 1].changed == c);
        if covered(r, at, changed) {
            let i = choose|i: int|
                0 <= i < r.len() && (#[trigger] r[i]).start <= at < r[i].end && r[i].changed
                    == changed;
            if i < r.len() - 1 {
                assert(r[i] == spans[i]);
                assert(spans[i].end <= n);
            }
        }
    }
}

proof fn lemma_spans_mark(tokens: Seq<Seq<char>>, mask: Seq<bool>, offset: nat)
    requires
        bytes_before(tokens, offset) <= usize::MAX,
    ensures
        forall|i: int, at: int, changed: bool|
            0 <= i < tokens.len() && #[trigger] bytes_before(tokens.take(i), offset) <= at
                < bytes_before(tokens.take(i + 1), offset) ==> #[trigger] covered(
                spans_of(tokens, mask, offset),
                at,
                changed,
            ) == (changed != mask[i]),
        forall|at: int, changed: bool|
            0 <= at < offset ==> #[trigger] covered(spans_of(tokens, mask, offset), at, changed)
                == !changed,
        changed_bytes(spans_of(tokens, mask, offset)) == lost(tokens, mask),
        forall|i: int|
            0 < i < spans_of(tokens, mask, offset).len() ==> (#[trigger] spans_of(
                tokens,
                mask,
                offset,
            )[i]).changed != spans_of(tokens, mask, offset)[i - 1].changed,
    decreases tokens.len(),
{
    let r = spans_of(tokens, mask, offset);
    if tokens.len() == 0 {
        if offset > 0 {
            assert(bytes_before(tokens, offset) >= offset);
            assert forall|at: int, changed: bool| 0 <= at < offset implies #[trigger] covered(
                r,
                at,
                changed,
            ) == !changed by {
                assert(r[0].start <= at < r[0].end && !r[0].changed);
            }
            assert(r.drop_last() =~= Seq::<Span>::empty());
            assert(changed_bytes(r.drop_last()) == 0);
        }
    } else {
        let front = tokens.drop_last();
        let before = spans_of(front, mask, offset);
        lemma_byte_len_add(concatenated(front), tokens.last());
        lemma_spans_tile(front, mask, offset);
        lemma_spans_mark(front, mask, offset);
        let n = bytes_before(front, offset) as int;
        let end = bytes_before(tokens, offset) as int;
        let c = !mask[tokens.len() - 1];
        assert forall|i: int, at: int, changed: bool|
            0 <= i < tokens.len() && #[trigger] bytes_before(tokens.take(i), offset) <= at
                < bytes_before(tokens.take(i + 1), offset) implies #[trigger] covered(r, at, changed)
            == (changed != mask[i]) by {
            lemma_bytes_monotone(tokens, i + 1);
            lemma_covered_rest(before, r, n, end, c, at, changed);
            if i < front.len() {
                assert(tokens.take(i) =~= front.take(i));
                assert(tokens.take(i + 1) =~= front.take(i + 1));
                lemma_bytes_monotone(front, i + 1);
                assert(bytes_before(front.take(i), offset) <= at < bytes_before(
                    front.take(i + 1),
                    offset,
                ));
                assert(covered(before, at, changed) == (changed != mask[i]));
            } else {
                assert(tokens.take(i) =~= front);
            }
        }
        assert forall|at: int, changed: bool| 0 <= at < offset implies #[trigger] covered(
            r,
            at,
            changed,
        ) == !changed by {
            lemma_covered_rest(before, r, n, end, c, at, changed);
            assert(covered(before, at, changed) == !changed);
        }
        if before.len() > 0 && before.last().changed == c {
            assert(r.drop_last() =~= before.drop_last());
            assert(before[before.len() - 1].start <= before[before.len() - 1].end);
        } else {
            assert(r.drop_last() =~= before);
        }
        assert forall|i: int| 0 < i < r.len() implies (#[trigger] r[i]).changed != r[i - 1].changed by {
            if i < before.len() {
                assert(before[i].changed != before[i - 1].changed);
            }
        }
    }
}

proof fn lemma_line_marked(line: Seq<char>, mask: Seq<bool>)
    requires
        byte_len(line) <= usize::MAX,
        mask.len() == tokens_of(body(line)).len(),
    ensures
        marked_by_word(
            line,
            spans_of(tokens_of(body(line)), mask, (byte_len(line) - byte_len(body(line))) as nat),
            mask,
        ),
        changed_bytes(
            spans_of(tokens_of(body(line)), mask, (byte_len(line) - byte_len(body(line))) as nat),
        ) == lost(tokens_of(body(line)), mask),
        byte_len(line) >= byte_len(body(line)),
{
    lemma_body_bytes(line);
    assert(line.skip(0) =~= line);
    let tokens = tokens_of(body(line));
    let offset = (byte_len(line) - byte_len(body(line))) as nat;
    tokens_make_the_line(body(line));
    lemma_spans_mark(tokens, mask, offset);
    let spans = spans_of(tokens, mask, offset);
    assert forall|i: int, at: int, changed: bool|
        0 <= i < mask.len() && #[trigger] word_start(line, i) <= at < word_start(
            line,
            i + 1,
        ) implies #[trigger] covered(spans, at, changed) == (changed != mask[i]) by {
        assert(bytes_before(tokens.take(i), offset) <= at < bytes_before(
            tokens.take(i + 1),
            offset,
        ));
    }
}

proof fn lemma_whole_alone(line: Seq<char>)
    requires
        byte_len(line) <= usize::MAX,
    ensures
        left_alone(line, whole_line(line)),
{
    let spans = whole_line(line);
    assert forall|at: int, changed: bool| 0 <= at < byte_len(line) implies #[trigger] covered(
        spans,
        at,
        changed,
    ) == !changed by {
        assert(spans[0].start <= at < spans[0].end && !spans[0].changed);
    }
}

/// Two lines are marked exactly where their words differ: there is a longest run
/// of words common to both, in their order, and every byte of every other word is
/// marked, on both sides, while no byte of a common word is, nor the `+` or `-` at
/// the front. Lines that are too long, or that would be marked for more than three
/// quarters, are not marked at all.
pub proof fn words_that_differ_are_marked(old: Seq<char>, new: Seq<char>)
    requires
        byte_len(old) <= usize::MAX,
        byte_len(new) <= usize::MAX,
    ensures
        exists|x: Seq<bool>, y: Seq<bool>| #[trigger]
            keep_the_most(tokens_of(body(old)), tokens_of(body(new)), x, y) && if not_worth_marking(
                old,
                new,
                x,
                y,
            ) {
                left_alone(old, compared(old, new).0) && left_alone(new, compared(old, new).1)
            } else {
                marked_by_word(old, compared(old, new).0, x) && marked_by_word(
                    new,
                    compared(old, new).1,
                    y,
                )
            },
{
    assert(old.skip(0) =~= old);
    assert(new.skip(0) =~= new);
    let a = tokens_of(body(old));
    let b = tokens_of(body(new));
    let (x, y) = kept_masks(a, b);
    lemma_kept_masks_len(a, b);
    kept_tokens_are_common(a, b);
    assert forall|s: Seq<Seq<char>>|
        is_subsequence(s, a) && #[trigger] is_subsequence(s, b) implies s.len() <= kept(
        a,
        x,
    ).len() by {
        nothing_longer_is_common(a, b, s);
    }
    assert(keep_the_most(a, b, x, y));
    lemma_body_bytes(old);
    lemma_body_bytes(new);
    lemma_line_marked(old, x);
    lemma_line_marked(new, y);
    lemma_whole_alone(old);
    lemma_whole_alone(new);
}

/// A run of words that changed is one span, and so is a run of words that did
/// not: neighbouring spans are never marked alike.
pub proof fn neighbouring_spans_are_marked_differently(old: Seq<char>, new: Seq<char>, i: int)
    requires
        byte_len(old) <= usize::MAX,
        byte_len(new) <= usize::MAX,
        i > 0,
    ensures
        i < compared(old, new).0.len() ==> compared(old, new).0[i].changed != compared(
            old,
            new,
        ).0[i - 1].changed,
        i < compared(old, new).1.len() ==> compared(old, new).1[i].changed != compared(
            old,
            new,
        ).1[i - 1].changed,
{
    assert(old.skip(0) =~= old);
    assert(new.skip(0) =~= new);
    lemma_body_bytes(old);
    lemma_body_bytes(new);
    let a = tokens_of(body(old));
    let b = tokens_of(body(new));
    let (x, y) = kept_masks(a, b);
    tokens_make_the_line(body(old));
    tokens_make_the_line(body(new));
    lemma_spans_mark(a, x, (byte_len(old) - byte_len(body(old))) as nat);
    lemma_spans_mark(b, y, (byte_len(new) - byte_len(body(new))) as nat);
}

/// A word that both lines start with is never marked, and where either of two
/// different first words could be left out without loss it is the old line's.
pub proof fn the_first_words_decide_alone(a: Seq<Seq<char>>, b: Seq<Seq<char>>, s: Seq<Seq<char>>)
    requires
        a.len() > 0,
        b.len() > 0,
    ensures
        a[0] == b[0] ==> kept_masks(a, b).0[0] && kept_masks(a, b).1[0],
        a[0] != b[0] && is_subsequence(s, a.skip(1)) && is_subsequence(s, b) && s.len() == kept(
            a,
            kept_masks(a, b).0,
        ).len() ==> !kept_masks(a, b).0[0],
{
    lemma_kept_masks_len(a, b);
    kept_tokens_are_common(a, b);
    if a[0] != b[0] && is_subsequence(s, a.skip(1)) && is_subsequence(s, b) && s.len() == kept(
        a,
        kept_masks(a, b).0,
    ).len() {
        nothing_longer_is_common(a.skip(1), b, s);
        assert(common_len(a, b) >= common_len(a.skip(1), b));
    }
}

/// The words of a line are its longest runs of one kind: the characters of a
/// word are of one kind, and those of neighbouring words are not.
pub proof fn words_are_runs_of_one_kind(s: Seq<char>)
    ensures
        forall|i: int, j: int|
            0 <= i < tokens_of(s).len() && 0 <= j < tokens_of(s)[i].len() ==> class_of(
                #[trigger] tokens_of(s)[i][j],
            ) == class_of(tokens_of(s)[i][0]),
        forall|i: int|
            0 < i < tokens_of(s).len() ==> class_of((#[trigger] tokens_of(s)[i])[0]) != class_of(
                tokens_of(s)[i - 1][0],
            ),
    decreases s.len(),
{
    if s.len() > 0 {
        let class = class_of(s[0]);
        lemma_run_bound(s, class);
        lemma_run_holds(s, class);
        let n = run_len(s, class) as int;
        let rest = s.skip(n);
        let words = tokens_of(s);
        words_are_runs_of_one_kind(rest);
        assert forall|i: int, j: int|
            0 <= i < words.len() && 0 <= j < words[i].len() implies class_of(
            #[trigger] words[i][j],
        ) == class_of(words[i][0]) by {
            if i > 0 {
                assert(words[i] == tokens_of(rest)[i - 1]);
                assert(class_of(tokens_of(rest)[i - 1][j]) == class_of(tokens_of(rest)[i - 1][0]));
            } else {
                assert(words[i][j] == s[j]);
                assert(words[i][0] == s[0]);
            }
        }
        assert forall|i: int| 0 < i < words.len() implies class_of((#[trigger] words[i])[0])
            != class_of(words[i - 1][0]) by {
            if i > 1 {
                assert(words[i] == tokens_of(rest)[i - 1]);
                assert(words[i - 1] == tokens_of(rest)[i - 2]);
            } else {
                assert(words[1] == tokens_of(rest)[0]);
                lemma_run_bound(rest, class_of(rest[0]));
                assert(words[1][0] == rest[0]);
                assert(words[0][0] == s[0]);
                assert(rest[0] == s[n]);
            }
        }
    }
}

proof fn lemma_run_holds(s: Seq<char>, class: Class)
    ensures
        run_len(s, class) <= s.len(),
        forall|j: int| 0 <= j < run_len(s, class) ==> class_of(#[trigger] s[j]) == class,
        run_len(s, class) < s.len() ==> class_of(s[run_len(s, class) as int]) != class,
    decreases s.len(),
{
    if s.len() > 0 && class_of(s[0]) == class {
        let rest = s.skip(1);
        lemma_run_holds(rest, class);
        assert forall|j: int| 0 <= j < run_len(s, class) implies class_of(#[trigger] s[j])
            == class by {
            if j > 0 {
                assert(s[j] == rest[j - 1]);
            }
        }
        if run_len(s, class) < s.len() {
            assert(s[run_len(s, class) as int] == rest[run_len(rest, class) as int]);
        }
    }
}

/// Letters, digits and underscores are of one kind, white space of another, and
/// every other character only of its own.
pub proof fn kinds_of_characters(c: char, d: char)
    ensures
        class_of(c) == class_of(d) <==> {
            ||| (alphanumeric(c) || c == '_') && (alphanumeric(d) || d == '_')
            ||| !(alphanumeric(c) || c == '_') && !(alphanumeric(d) || d == '_') && is_space(c)
                && is_space(d)
            ||| c == d
        },
{
}

/// Removed lines from `start` to `middle` and added ones from there to `end`, with
/// nothing of the kind before and behind them, are compared by their places: the
/// first with the first, and so on; what is left over on either side is compared
/// with nothing, and so is every other line.
pub proof fn changed_lines_pair_by_their_places(
    lines: Seq<DiffLine>,
    start: int,
    middle: int,
    end: int,
    i: int,
)
    requires
        0 <= start < middle < end <= lines.len(),
        forall|k: int| start <= k < middle ==> (#[trigger] lines[k]).kind == DiffLineKind::Removed,
        forall|k: int| middle <= k < end ==> (#[trigger] lines[k]).kind == DiffLineKind::Added,
        start > 0 ==> lines[start - 1].kind != DiffLineKind::Removed,
        end < lines.len() ==> lines[end].kind != DiffLineKind::Added,
        start <= i < end,
    ensures
        i < middle && middle + (i - start) < end ==> partner(lines, i) == Some(middle + (i - start)),
        i < middle && middle + (i - start) >= end ==> partner(lines, i) is None,
        i >= middle && start + (i - middle) < middle ==> partner(lines, i) == Some(
            start + (i - middle),
        ),
        i >= middle && start + (i - middle) >= middle ==> partner(lines, i) is None,
{
    lemma_run_end_is(lines, middle, end, DiffLineKind::Added);
    if i < middle {
        lemma_run_start_in(lines, start, i, DiffLineKind::Removed);
        lemma_run_end_is(lines, i, middle, DiffLineKind::Removed);
    } else {
        assert(lines[middle - 1].kind != DiffLineKind::Added);
        lemma_run_start_in(lines, middle, i, DiffLineKind::Added);
        lemma_run_start_in(lines, start, middle, DiffLineKind::Removed);
    }
}

proof fn lemma_run_end_is(lines: Seq<DiffLine>, from: int, end: int, kind: DiffLineKind)
    requires
        0 <= from <= end <= lines.len(),
        forall|k: int| from <= k < end ==> (#[trigger] lines[k]).kind == kind,
        end < lines.len() ==> lines[end].kind != kind,
    ensures
        run_end(lines, from, kind) == end,
    decreases end - from,
{
    if from < end {
        assert(lines[from].kind == kind);
        lemma_run_end_is(lines, from + 1, end, kind);
    }
}

/// A removed line is only ever compared with an added one that comes after it,
/// and that one with it. A line that is neither is compared with nothing.
pub proof fn partners_are_mutual(lines: Seq<DiffLine>, i: int)
    requires
        0 <= i < lines.len(),
    ensures
        match partner(lines, i) {
            Some(j) => {
                &&& 0 <= j < lines.len()
                &&& partner(lines, j) == Some(i)
                &&& lines[i].kind == DiffLineKind::Removed ==> lines[j].kind == DiffLineKind::Added
                    && i < j
                &&& lines[i].kind == DiffLineKind::Added ==> lines[j].kind == DiffLineKind::Removed
                    && j < i
                &&& lines[i].kind == DiffLineKind::Removed || lines[i].kind == DiffLineKind::Added
            },
            None => true,
        },
{
    if lines[i].kind == DiffLineKind::Removed {
        lemma_run_start_holds(lines, i, DiffLineKind::Removed);
        let start = run_start(lines, i, DiffLineKind::Removed);
        lemma_run_end(lines, i, DiffLineKind::Removed);
        let middle = run_end(lines, i, DiffLineKind::Removed);
        lemma_run_end(lines, middle, DiffLineKind::Added);
        let end = run_end(lines, middle, DiffLineKind::Added);
        if middle + (i - start) < end {
            changed_lines_pair_by_their_places(lines, start, middle, end, middle + (i - start));
        }
    } else if lines[i].kind == DiffLineKind::Added {
        lemma_run_start_holds(lines, i, DiffLineKind::Added);
        let middle = run_start(lines, i, DiffLineKind::Added);
        lemma_run_start_holds(lines, middle, DiffLineKind::Removed);
        let start = run_start(lines, middle, DiffLineKind::Removed);
        lemma_run_end(lines, i, DiffLineKind::Added);
        let end = run_end(lines, i, DiffLineKind::Added);
        if start + (i - middle) < middle {
            changed_lines_pair_by_their_places(lines, start, middle, end, start + (i - middle));
        }
    }
}

proof fn lemma_run_start_holds(lines: Seq<DiffLine>, to: int, kind: DiffLineKind)
    requires
        0 <= to <= lines.len(),
    ensures
        0 <= run_start(lines, to, kind) <= to,
        forall|k: int| run_start(lines, to, kind) <= k < to ==> (#[trigger] lines[k]).kind == kind,
        run_start(lines, to, kind) > 0 ==> lines[run_start(lines, to, kind) - 1].kind != kind,
    decreases to,
{
    if 0 < to && lines[to - 1].kind == kind {
        lemma_run_start_holds(lines, to - 1, kind);
    }
}

/// The spans of a line of a diff are those of its own text: they cover that text
/// from its start to its end, and mark in it what is not in the line that it is
/// compared with. A line that is compared with none has none.
pub proof fn every_line_is_marked_in_its_own_text(lines: Seq<DiffLine>, i: int)
    requires
        0 <= i < lines.len(),
        forall|k: int| 0 <= k < lines.len() ==> byte_len((#[trigger] lines[k]).text@) <= usize::MAX,
    ensures
        match partner(lines, i) {
            None => spans_at(lines, i) is None,
            Some(j) => {
                let (mine, theirs) = (lines[i].text@, lines[j].text@);
                &&& spans_at(lines, i) matches Some(spans) && tile(spans, byte_len(mine)) && exists|
                    x: Seq<bool>,
                    y: Seq<bool>,
                |
                    (#[trigger] keep_the_most(
                        tokens_of(body(mine)),
                        tokens_of(body(theirs)),
                        x,
                        y,
                    )) && if not_worth_marking(mine, theirs, x, y) {
                        left_alone(mine, spans)
                    } else {
                        marked_by_word(mine, spans, x)
                    }
            },
        },
{
    partners_are_mutual(lines, i);
    if let Some(j) = partner(lines, i) {
        let (mine, theirs) = (lines[i].text@, lines[j].text@);
        assert(byte_len(lines[i].text@) <= usize::MAX && byte_len(lines[j].text@) <= usize::MAX);
        if lines[i].kind == DiffLineKind::Removed {
            words_that_differ_are_marked(mine, theirs);
            spans_tile_the_line(mine, theirs);
        } else {
            words_that_differ_are_marked(theirs, mine);
            spans_tile_the_line(theirs, mine);
            let (x, y) = choose|x: Seq<bool>, y: Seq<bool>| #[trigger]
                keep_the_most(tokens_of(body(theirs)), tokens_of(body(mine)), x, y)
                    && if not_worth_marking(theirs, mine, x, y) {
                    left_alone(theirs, compared(theirs, mine).0) && left_alone(
                        mine,
                        compared(theirs, mine).1,
                    )
                } else {
                    marked_by_word(theirs, compared(theirs, mine).0, x) && marked_by_word(
                        mine,
                        compared(theirs, mine).1,
                        y,
                    )
                };
            lemma_most_both_ways(tokens_of(body(theirs)), tokens_of(body(mine)), x, y);
            assert(not_worth_marking(theirs, mine, x, y) == not_worth_marking(mine, theirs, y, x));
        }
    }
}

proof fn lemma_most_both_ways(a: Seq<Seq<char>>, b: Seq<Seq<char>>, x: Seq<bool>, y: Seq<bool>)
    requires
        keep_the_most(a, b, x, y),
    ensures
        keep_the_most(b, a, y, x),
{
    assert forall|s: Seq<Seq<char>>|
        is_subsequence(s, b) && #[trigger] is_subsequence(s, a) implies s.len() <= kept(
        b,
        y,
    ).len() by {
        assert(is_subsequence(s, a) && is_subsequence(s, b));
    }
}

} // verus!
