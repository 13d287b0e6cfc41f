//! What lines, words and trimmed texts are.

use vstd::prelude::*;

use crate::seqs::lemma_index_is;
use crate::text::{
    is_space, lemma_space_index, lemma_trim_back, lemma_trim_front, lines_of, trim_back,
    trim_front, trimmed, without_return, words_of,
};

verus! {

/// Lines one after another, each ended by a newline.
pub open spec fn printed(lines: Seq<Seq<char>>) -> Seq<char>
    decreases lines.len(),
{
    if lines.len() == 0 {
        Seq::empty()
    } else {
        lines[0].push('\n') + printed(lines.skip(1))
    }
}

/// Whether a line reads back as it is printed: there is no newline in it, and no
/// carriage return at its end.
pub open spec fn is_line(line: Seq<char>) -> bool {
    !line.contains('\n') && (line.len() > 0 ==> line.last() != '\r')
}

/// A text that starts with a line and its newline has that line first, and then
/// the lines of the rest.
pub proof fn the_first_line_comes_first(line: Seq<char>, rest: Seq<char>)
    requires
        !line.contains('\n'),
    ensures
        lines_of(line.push('\n') + rest) == seq![without_return(line)] + lines_of(rest),
{
    let s = line.push('\n') + rest;
    assert forall|j: int| 0 <= j < line.len() implies s[j] != '\n' by {
        assert(s[j] == line[j]);
    }
    lemma_index_is(s, '\n', line.len() as int);
    assert(s.take(line.len() as int) =~= line);
    assert(s.skip(line.len() as int + 1) =~= rest);
}

/// Lines that were printed are read back: all of them, in their order.
pub proof fn lines_read_back(lines: Seq<Seq<char>>)
    requires
        forall|i: int| 0 <= i < lines.len() ==> is_line(#[trigger] lines[i]),
    ensures
        lines_of(printed(lines)) == lines,
    decreases lines.len(),
{
    if lines.len() > 0 {
        let rest = lines.skip(1);
        assert forall|i: int| 0 <= i < rest.len() implies is_line(#[trigger] rest[i]) by {
            assert(is_line(lines[i + 1]));
        }
        lines_read_back(rest);
        assert(is_line(lines[0]));
        the_first_line_comes_first(lines[0], printed(rest));
        assert(lines_of(printed(lines)) =~= lines);
    } else {
        assert(lines_of(printed(lines)) =~= lines);
    }
}

/// Whether a text is white space throughout.
pub open spec fn blank(s: Seq<char>) -> bool {
    forall|i: int| 0 <= i < s.len() ==> is_space(#[trigger] s[i])
}

/// Whether a text neither starts nor ends with white space.
pub open spec fn is_trim(s: Seq<char>) -> bool {
    s.len() > 0 ==> !is_space(s[0]) && !is_space(s.last())
}

/// Trimming takes white space off the two ends and nothing else: a text that has
/// none there is what is left of it between any white space.
pub proof fn trimming_takes_only_white_space(before: Seq<char>, text: Seq<char>, after: Seq<char>)
    requires
        blank(before),
        blank(after),
        is_trim(text),
    ensures
        trimmed(before + text + after) == text,
{
    let p = |c: char| is_space(c);
    let s = before + text + after;
    if text.len() == 0 {
        assert forall|j: int| 0 <= j < s.len() implies p(s[j]) by {
            if j >= before.len() {
                assert(s[j] == after[j - before.len()]);
            } else {
                assert(s[j] == before[j]);
            }
        }
        lemma_trim_front(s, p, s.len() as int);
        assert(trim_back(trim_front(s, p), p) =~= text);
    } else {
        assert forall|j: int| 0 <= j < before.len() implies p(s[j]) by {
            assert(s[j] == before[j]);
        }
        assert(s[before.len() as int] == text[0]);
        lemma_trim_front(s, p, before.len() as int);
        let t = text + after;
        assert(s.skip(before.len() as int) =~= t);
        assert forall|j: int| text.len() <= j < t.len() implies p(t[j]) by {
            assert(t[j] == after[j - text.len()]);
        }
        assert(t[text.len() - 1] == text.last());
        lemma_trim_back(t, p, text.len() as int);
        assert(t.take(text.len() as int) =~= text);
    }
}

/// Every text is what is left of it by trimming, with white space before and
/// behind; nothing is left of white space alone.
pub proof fn trimming_leaves_the_middle(s: Seq<char>)
    ensures
        is_trim(trimmed(s)),
        exists|before: Seq<char>, after: Seq<char>|
            #![trigger blank(before), blank(after)]
            blank(before) && blank(after) && s == before + trimmed(s) + after,
        trimmed(s).len() == 0 <==> blank(s),
{
    let p = |c: char| is_space(c);
    let k = first_other(s);
    lemma_first_other(s);
    lemma_trim_front(s, p, k);
    let t = s.skip(k);
    let n = last_other(t);
    lemma_last_other(t);
    lemma_trim_back(t, p, n);
    let m = trimmed(s);
    assert(m == t.take(n));
    let before = s.take(k);
    let after = t.skip(n);
    assert(s =~= before + m + after);
    assert(blank(before));
    assert(blank(after)) by {
        assert forall|i: int| 0 <= i < after.len() implies is_space(#[trigger] after[i]) by {
            assert(after[i] == t[n + i]);
        }
    }
    if blank(s) && m.len() > 0 {
        assert(is_space(s[k]));
    }
    if m.len() == 0 {
        assert forall|i: int| 0 <= i < s.len() implies is_space(#[trigger] s[i]) by {
            if i < k {
                assert(s[i] == before[i]);
            } else {
                assert(s[i] == after[i - k]);
            }
        }
    }
}

/// Where the first character stands that is not white space.
spec fn first_other(s: Seq<char>) -> int
    decreases s.len(),
{
    if s.len() > 0 && is_space(s[0]) {
        1 + first_other(s.skip(1))
    } else {
        0
    }
}

proof fn lemma_first_other(s: Seq<char>)
    ensures
        0 <= first_other(s) <= s.len(),
        forall|j: int| 0 <= j < first_other(s) ==> is_space(#[trigger] s[j]),
        first_other(s) < s.len() ==> !is_space(s[first_other(s)]),
    decreases s.len(),
{
    if s.len() > 0 && is_space(s[0]) {
        let rest = s.skip(1);
        lemma_first_other(rest);
        assert forall|j: int| 0 <= j < first_other(s) implies is_space(#[trigger] s[j]) by {
            if j > 0 {
                assert(s[j] == rest[j - 1]);
            }
        }
    }
}

/// Behind which place only white space stands.
spec fn last_other(s: Seq<char>) -> int
    decreases s.len(),
{
    if s.len() > 0 && is_space(s.last()) {
        last_other(s.drop_last())
    } else {
        s.len() as int
    }
}

proof fn lemma_last_other(s: Seq<char>)
    ensures
        0 <= last_other(s) <= s.len(),
        forall|j: int| last_other(s) <= j < s.len() ==> is_space(#[trigger] s[j]),
        last_other(s) > 0 ==> !is_space(s[last_other(s) - 1]),
    decreases s.len(),
{
    if s.len() > 0 && is_space(s.last()) {
        let front = s.drop_last();
        lemma_last_other(front);
        assert forall|j: int| last_other(s) <= j < s.len() implies is_space(#[trigger] s[j]) by {
            if j < front.len() {
                assert(s[j] == front[j]);
            }
        }
    }
}

/// A word is what stands up to the next white space, and the words of a text are
/// that one and the words of the rest. White space in front is no word.
pub proof fn words_end_at_white_space(word: Seq<char>, gap: char, rest: Seq<char>)
    requires
        word.len() > 0,
        forall|i: int| 0 <= i < word.len() ==> !is_space(#[trigger] word[i]),
        is_space(gap),
    ensures
        words_of(word.push(gap) + rest) == seq![word] + words_of(rest),
        words_of(word) == seq![word],
        words_of(seq![gap] + rest) == words_of(rest),
{
    let s = word.push(gap) + rest;
    let n = word.len() as int;
    assert forall|j: int| 0 <= j < n implies !is_space(#[trigger] s[j]) by {
        assert(s[j] == word[j]);
    }
    lemma_space_index(s, n);
    assert(s.take(n) =~= word);
    let t = s.skip(n);
    assert(t[0] == gap);
    assert(t.skip(1) =~= rest);
    assert(words_of(t) == words_of(rest));
    assert(!is_space(word[0]));
    assert(s[0] == word[0]);
    lemma_space_index(word, n);
    assert(word.take(n) =~= word);
    assert(word.skip(n) =~= Seq::<char>::empty());
    assert(words_of(word.skip(n)) =~= Seq::<Seq<char>>::empty());
    assert(words_of(word) =~= seq![word]);
    assert((seq![gap] + rest).skip(1) =~= rest);
}

/// A carriage return before a newline is no part of the line, and a text that ends
/// without a newline ends with a line of its own.
pub proof fn carriage_returns_end_with_the_line(line: Seq<char>, rest: Seq<char>)
    requires
        !line.contains('\n'),
    ensures
        lines_of(line.push('\r').push('\n') + rest) == seq![line] + lines_of(rest),
        line.len() > 0 ==> lines_of(line) == seq![line],
        lines_of(Seq::empty()).len() == 0,
{
    let returned = line.push('\r');
    assert(!returned.contains('\n')) by {
        if returned.contains('\n') {
            let k = returned.index_of('\n');
            assert(returned[k] == '\n');
            assert(line[k] == '\n');
        }
    }
    the_first_line_comes_first(returned, rest);
    assert(without_return(returned) =~= line);
    assert forall|j: int| 0 <= j < line.len() implies line[j] != '\n' by {
        assert(line.contains(line[j]));
    }
    lemma_index_is(line, '\n', line.len() as int);
    lemma_index_is(Seq::<char>::empty(), '\n', 0);
}

} // verus!
