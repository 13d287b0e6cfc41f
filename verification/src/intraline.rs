//! Which words inside a changed line actually changed.
//!
//! A diff that marks a whole line red and a whole line green is honest but
//! coarse: when a rename touches one identifier in a ninety-column line, the
//! reader has to compare the two lines by eye to find it. This narrows the
//! claim from "this line changed" to "these words changed".
//!
//! Computed here rather than asked of git. `git diff --word-diff` returns a
//! different document shape — one where an addition and a removal share a
//! line — which would have to be undone before the lines could be numbered, and
//! would take the anchors that annotations and search depend on with it.
//! Pairing lines locally keeps one git call, one diff shape, and every feature
//! already built on it.

use vstd::prelude::*;
use vstd::string::*;

use crate::model::{DiffLine, DiffLineKind};
use crate::text::{
    alphanumeric, byte_len, bytes_in, bytes_of, chars_of, is_space, lemma_byte_len_add, same_chars,
    space,
};

pub mod marking;

verus! {

/// Longest pair of lines compared word by word.
///
/// A minified bundle arrives as one enormous line; the quadratic middle of the
/// algorithm on two of those would stall the draw. Past this the line keeps its
/// ordinary whole-line colour.
pub const MAX_LINE: usize = 2000;

/// A run of bytes within one line, and whether it is part of what changed.
///
/// Byte offsets rather than character indices: the caller slices the original
/// `String` with them, and every boundary here comes from a split that already
/// respects character boundaries.
#[derive(Debug, Clone, Copy, PartialEq, Eq, Structural)]
pub struct Span {
    pub start: usize,
    pub end: usize,
    pub changed: bool,
}

/// Which run a character belongs to: a word, a stretch of whitespace, or a
/// single punctuation mark.
///
/// Punctuation gets a class per character, so `foo(bar)` splits at the bracket
/// rather than being one opaque token — the parentheses are usually the part
/// that stayed.
#[derive(PartialEq, Eq, Clone, Copy, Structural)]
pub enum Class {
    Word,
    Space,
    /// Carries the character itself so two different marks never merge.
    Punct(char),
}

/// The class of a character, given whether Unicode calls it alphanumeric.
pub open spec fn class_given(c: char, alphanumeric: bool) -> Class {
    if alphanumeric || c == '_' {
        Class::Word
    } else if is_space(c) {
        Class::Space
    } else {
        Class::Punct(c)
    }
}

/// The class of a character.
pub open spec fn class_of(c: char) -> Class {
    class_given(c, alphanumeric(c))
}

/// The class of a character, given whether Unicode calls it alphanumeric.
pub fn classified(c: char, alphanumeric: bool) -> (r: Class)
    ensures
        r == class_given(c, alphanumeric),
{
    if alphanumeric || c == '_' {
        Class::Word
    } else if space(c) {
        Class::Space
    } else {
        Class::Punct(c)
    }
}

/// The class of a character.
pub fn classify(c: char) -> (r: Class)
    ensures
        r == class_of(c),
{
    classified(c, c.is_alphanumeric())
}

/// How many characters from the front on are of the class `class`.
pub open spec fn run_len(s: Seq<char>, class: Class) -> nat
    decreases s.len(),
{
    if s.len() > 0 && class_of(s[0]) == class {
        1 + run_len(s.skip(1), class)
    } else {
        0
    }
}

/// A run lies within the text.
pub proof fn lemma_run_bound(s: Seq<char>, class: Class)
    ensures
        run_len(s, class) <= s.len(),
    decreases s.len(),
{
    if s.len() > 0 && class_of(s[0]) == class {
        lemma_run_bound(s.skip(1), class);
    }
}

/// A line in words, keeping the separators: the longest runs of characters of
/// one class, in their order.
///
/// Whitespace is its own token rather than being attached to a word, so that
/// re-indenting a line does not report the word beside it as changed.
pub open spec fn tokens_of(s: Seq<char>) -> Seq<Seq<char>>
    decreases s.len(),
{
    if s.len() == 0 {
        Seq::empty()
    } else {
        proof {
            lemma_run_bound(s, class_of(s[0]));
        }
        let n = run_len(s, class_of(s[0])) as int;
        seq![s.take(n)] + tokens_of(s.skip(n))
    }
}

/// The tokens one after another.
pub open spec fn concatenated(tokens: Seq<Seq<char>>) -> Seq<char>
    decreases tokens.len(),
{
    if tokens.len() == 0 {
        Seq::empty()
    } else {
        concatenated(tokens.drop_last()) + tokens.last()
    }
}

proof fn lemma_concatenated_front(first: Seq<char>, rest: Seq<Seq<char>>)
    ensures
        concatenated(seq![first] + rest) == first + concatenated(rest),
    decreases rest.len(),
{
    let all = seq![first] + rest;
    if rest.len() == 0 {
        assert(all.drop_last() =~= Seq::<Seq<char>>::empty());
        assert(concatenated(all.drop_last()) =~= Seq::<char>::empty());
        assert(concatenated(all) =~= first + concatenated(rest));
    } else {
        assert(all.drop_last() =~= seq![first] + rest.drop_last());
        lemma_concatenated_front(first, rest.drop_last());
        assert(concatenated(all) =~= first + concatenated(rest));
    }
}

/// Every character of a line lands in exactly one token: the tokens one after
/// another are the line again, and none is empty.
pub proof fn tokens_make_the_line(s: Seq<char>)
    ensures
        concatenated(tokens_of(s)) == s,
        forall|i: int| 0 <= i < tokens_of(s).len() ==> (#[trigger] tokens_of(s)[i]).len() > 0,
    decreases s.len(),
{
    if s.len() > 0 {
        lemma_run_bound(s, class_of(s[0]));
        let n = run_len(s, class_of(s[0])) as int;
        tokens_make_the_line(s.skip(n));
        lemma_concatenated_front(s.take(n), tokens_of(s.skip(n)));
        assert(s.take(n) + s.skip(n) =~= s);
        assert forall|i: int| 0 <= i < tokens_of(s).len() implies (#[trigger] tokens_of(s)[i]).len()
            > 0 by {
            if i > 0 {
                assert(tokens_of(s)[i] == tokens_of(s.skip(n))[i - 1]);
            }
        }
    }
}

/// The characters of each token in turn.
pub open spec fn token_views(v: Seq<Vec<char>>) -> Seq<Seq<char>> {
    v.map_values(|t: Vec<char>| t@)
}

proof fn lemma_run_is(s: Seq<char>, class: Class, n: int)
    requires
        0 <= n <= s.len(),
        forall|j: int| 0 <= j < n ==> class_of(#[trigger] s[j]) == class,
        n < s.len() ==> class_of(s[n]) != class,
    ensures
        run_len(s, class) == n,
    decreases n,
{
    if n > 0 {
        let rest = s.skip(1);
        assert(class_of(s[0]) == class);
        assert forall|j: int| 0 <= j < n - 1 implies class_of(#[trigger] rest[j]) == class by {
            assert(class_of(s[j + 1]) == class);
        }
        lemma_run_is(rest, class, n - 1);
    }
}

/// Split a line into words, keeping the separators.
fn tokenize(line: &Vec<char>, from: usize) -> (r: Vec<Vec<char>>)
    requires
        from <= line@.len(),
    ensures
        token_views(r@) == tokens_of(line@.skip(from as int)),
{
    let ghost all = line@.skip(from as int);
    let mut out: Vec<Vec<char>> = Vec::new();
    let mut at: usize = from;
    assert(token_views(out@) =~= Seq::<Seq<char>>::empty());
    while at < line.len()
        invariant
            from <= at <= line@.len(),
            tokens_of(all) =~= token_views(out@) + tokens_of(line@.skip(at as int)),
        decreases line@.len() - at,
    {
        let ghost rest = line@.skip(at as int);
        let class = classify(line[at]);
        let mut token: Vec<char> = Vec::new();
        token.push(line[at]);
        let mut end: usize = at + 1;
        while end < line.len() && classify(line[end]) == class
            invariant
                at < end <= line@.len(),
                rest == line@.skip(at as int),
                token@ =~= rest.take(end - at),
                forall|j: int| 0 <= j < end - at ==> class_of(#[trigger] rest[j]) == class,
            decreases line@.len() - end,
        {
            token.push(line[end]);
            end += 1;
        }
        proof {
            lemma_run_is(rest, class, end - at);
            assert(rest.skip(end - at) =~= line@.skip(end as int));
        }
        let ghost before = token_views(out@);
        out.push(token);
        assert(token_views(out@) =~= before.push(token@));
        at = end;
    }
    assert(line@.skip(at as int) =~= Seq::<char>::empty());
    out
}

/// The length of the longest common subsequence of two runs of tokens.
pub open spec fn common_len<T>(a: Seq<T>, b: Seq<T>) -> nat
    decreases a.len() + b.len(),
{
    if a.len() == 0 || b.len() == 0 {
        0
    } else if a[0] == b[0] {
        1 + common_len(a.skip(1), b.skip(1))
    } else {
        let without_a = common_len(a.skip(1), b);
        let without_b = common_len(a, b.skip(1));
        if without_a >= without_b {
            without_a
        } else {
            without_b
        }
    }
}

/// Which tokens of the two sides survive into the other: of each side `true`
/// where a token is common.
///
/// Walks both sides from the front. Equal tokens are both kept; of two that
/// differ the old one is passed over, unless passing over the new one leaves
/// more in common.
pub open spec fn kept_masks<T>(a: Seq<T>, b: Seq<T>) -> (Seq<bool>, Seq<bool>)
    decreases a.len() + b.len(),
{
    if a.len() == 0 || b.len() == 0 {
        (Seq::new(a.len(), |i: int| false), Seq::new(b.len(), |i: int| false))
    } else if a[0] == b[0] {
        let (x, y) = kept_masks(a.skip(1), b.skip(1));
        (seq![true] + x, seq![true] + y)
    } else if common_len(a.skip(1), b) >= common_len(a, b.skip(1)) {
        let (x, y) = kept_masks(a.skip(1), b);
        (seq![false] + x, y)
    } else {
        let (x, y) = kept_masks(a, b.skip(1));
        (x, seq![false] + y)
    }
}

/// The items that a mask keeps.
pub open spec fn kept<T>(s: Seq<T>, mask: Seq<bool>) -> Seq<T>
    decreases s.len(),
{
    if s.len() == 0 || mask.len() == 0 {
        Seq::empty()
    } else if mask[0] {
        seq![s[0]] + kept(s.skip(1), mask.skip(1))
    } else {
        kept(s.skip(1), mask.skip(1))
    }
}

/// Whether `s` can be had from `a` by leaving items out.
pub open spec fn is_subsequence<T>(s: Seq<T>, a: Seq<T>) -> bool
    decreases a.len(),
{
    if s.len() == 0 {
        true
    } else if a.len() == 0 {
        false
    } else {
        (s[0] == a[0] && is_subsequence(s.skip(1), a.skip(1))) || is_subsequence(s, a.skip(1))
    }
}

proof fn lemma_subsequence_rest<T>(s: Seq<T>, a: Seq<T>)
    requires
        is_subsequence(s, a),
        s.len() > 0,
    ensures
        is_subsequence(s.skip(1), a),
        s[0] == a[0] ==> is_subsequence(s.skip(1), a.skip(1)),
    decreases a.len(),
{
    if is_subsequence(s, a.skip(1)) {
        lemma_subsequence_rest(s, a.skip(1));
        lemma_subsequence_later(s.skip(1), a);
    } else {
        lemma_subsequence_later(s.skip(1), a);
    }
}

proof fn lemma_subsequence_later<T>(s: Seq<T>, a: Seq<T>)
    requires
        a.len() > 0,
        is_subsequence(s, a.skip(1)),
    ensures
        is_subsequence(s, a),
{
}

proof fn lemma_kept_masks_len<T>(a: Seq<T>, b: Seq<T>)
    ensures
        kept_masks(a, b).0.len() == a.len(),
        kept_masks(a, b).1.len() == b.len(),
    decreases a.len() + b.len(),
{
    if a.len() == 0 || b.len() == 0 {
    } else if a[0] == b[0] {
        lemma_kept_masks_len(a.skip(1), b.skip(1));
    } else {
        lemma_kept_masks_len(a.skip(1), b);
        lemma_kept_masks_len(a, b.skip(1));
    }
}

proof fn lemma_nothing_kept<T>(s: Seq<T>, mask: Seq<bool>)
    requires
        forall|i: int| 0 <= i < mask.len() ==> !mask[i],
    ensures
        kept(s, mask) == Seq::<T>::empty(),
    decreases s.len(),
{
    if s.len() > 0 && mask.len() > 0 {
        lemma_nothing_kept(s.skip(1), mask.skip(1));
    }
}

/// What the two sides keep is the same on both: a common subsequence, and a
/// longest one.
pub proof fn kept_tokens_are_common<T>(a: Seq<T>, b: Seq<T>)
    ensures
        kept(a, kept_masks(a, b).0) == kept(b, kept_masks(a, b).1),
        kept(a, kept_masks(a, b).0).len() == common_len(a, b),
        is_subsequence(kept(a, kept_masks(a, b).0), a),
        is_subsequence(kept(b, kept_masks(a, b).1), b),
    decreases a.len() + b.len(),
{
    let (x, y) = kept_masks(a, b);
    lemma_kept_masks_len(a, b);
    if a.len() == 0 || b.len() == 0 {
        lemma_nothing_kept(a, x);
        lemma_nothing_kept(b, y);
    } else if a[0] == b[0] {
        kept_tokens_are_common(a.skip(1), b.skip(1));
        let (p, q) = kept_masks(a.skip(1), b.skip(1));
        assert(x.skip(1) =~= p);
        assert(y.skip(1) =~= q);
        let s = kept(a, x);
        assert(s.skip(1) =~= kept(a.skip(1), p));
        assert(kept(b, y).skip(1) =~= kept(b.skip(1), q));
    } else if common_len(a.skip(1), b) >= common_len(a, b.skip(1)) {
        kept_tokens_are_common(a.skip(1), b);
        let (p, q) = kept_masks(a.skip(1), b);
        assert(x.skip(1) =~= p);
        lemma_subsequence_later(kept(a.skip(1), p), a);
    } else {
        kept_tokens_are_common(a, b.skip(1));
        let (p, q) = kept_masks(a, b.skip(1));
        assert(y.skip(1) =~= q);
        lemma_subsequence_later(kept(b.skip(1), q), b);
    }
}

/// Nothing longer is common: no subsequence of both sides is longer than what
/// is kept.
pub proof fn nothing_longer_is_common<T>(a: Seq<T>, b: Seq<T>, s: Seq<T>)
    requires
        is_subsequence(s, a),
        is_subsequence(s, b),
    ensures
        s.len() <= common_len(a, b),
    decreases a.len() + b.len(),
{
    if s.len() > 0 {
        if a[0] == b[0] {
            if s[0] == a[0] {
                lemma_subsequence_rest(s, a);
                lemma_subsequence_rest(s, b);
                nothing_longer_is_common(a.skip(1), b.skip(1), s.skip(1));
            } else {
                nothing_longer_is_common(a.skip(1), b.skip(1), s);
            }
        } else if s[0] != a[0] {
            nothing_longer_is_common(a.skip(1), b, s);
        } else {
            nothing_longer_is_common(a, b.skip(1), s);
        }
    }
}

proof fn lemma_common_bound<T>(a: Seq<T>, b: Seq<T>)
    ensures
        common_len(a, b) <= a.len(),
    decreases a.len() + b.len(),
{
    if a.len() > 0 && b.len() > 0 {
        if a[0] == b[0] {
            lemma_common_bound(a.skip(1), b.skip(1));
        } else {
            lemma_common_bound(a.skip(1), b);
            lemma_common_bound(a, b.skip(1));
        }
    }
}

/// A row of the table: for each `m` the common length of `a` and the last `m`
/// items of `b`.
spec fn row_is(row: Seq<usize>, a: Seq<Seq<char>>, b: Seq<Seq<char>>) -> bool {
    &&& row.len() == b.len() + 1
    &&& forall|m: int|
        0 <= m <= b.len() ==> #[trigger] row[m] == common_len(a, b.skip(b.len() - m))
}

/// The row for the old side from `i` on, given the row for it from `i + 1` on.
fn table_row(old: &Vec<Vec<char>>, i: usize, new: &Vec<Vec<char>>, below: &Vec<usize>) -> (r: Vec<
    usize,
>)
    requires
        i < old@.len(),
        row_is(below@, token_views(old@).skip(i + 1), token_views(new@)),
    ensures
        row_is(r@, token_views(old@).skip(i as int), token_views(new@)),
{
    let ghost a = token_views(old@).skip(i as int);
    let ghost b = token_views(new@);
    let cols: usize = new.len();
    let mut row: Vec<usize> = Vec::new();
    row.push(0);
    assert(b.skip(b.len() - 0) =~= Seq::<Seq<char>>::empty());
    assert(a.skip(1) =~= token_views(old@).skip(i + 1));
    for m in 0..cols
        invariant
            i < old@.len(),
            cols == new@.len(),
            a == token_views(old@).skip(i as int),
            a.skip(1) =~= token_views(old@).skip(i + 1),
            b == token_views(new@),
            row_is(below@, a.skip(1), b),
            row@.len() == m + 1,
            forall|k: int| 0 <= k <= m ==> #[trigger] row@[k] == common_len(a, b.skip(b.len() - k)),
    {
        let j: usize = cols - m - 1;
        let ghost rest = b.skip(j as int);
        proof {
            assert(rest.skip(1) =~= b.skip(b.len() - m));
            assert(rest =~= b.skip(b.len() - (m + 1)));
            assert(rest[0] == new@[j as int]@);
            assert(a[0] == old@[i as int]@);
            assert(row@[m as int] == common_len(a, rest.skip(1)));
            assert(below@[m as int] == common_len(a.skip(1), rest.skip(1)));
            assert(below@[m + 1] == common_len(a.skip(1), rest));
            lemma_common_bound(a, rest);
        }
        let value: usize = if same_chars(&old[i], &new[j]) {
            assert(common_len(a, rest) == 1 + common_len(a.skip(1), rest.skip(1)));
            assert(a.len() <= old.len());
            below[m] + 1
        } else if below[m + 1] >= row[m] {
            below[m + 1]
        } else {
            row[m]
        };
        row.push(value);
    }
    row
}

/// Which tokens of each side survive into the other, by longest common
/// subsequence.
///
/// Longest common subsequence rather than a set intersection: order carries
/// meaning in code, and a token that merely appears on both sides in a
/// different place did move.
fn common(old: &Vec<Vec<char>>, new: &Vec<Vec<char>>) -> (r: (Vec<bool>, Vec<bool>))
    ensures
        (r.0@, r.1@) == kept_masks(token_views(old@), token_views(new@)),
{
    let ghost a = token_views(old@);
    let ghost b = token_views(new@);
    let rows: usize = old.len();
    let cols: usize = new.len();
    // table[k] is the row for the old side from `rows - k` on. Built from the
    // end so the walk below can move forwards.
    let mut table: Vec<Vec<usize>> = Vec::new();
    let mut first: Vec<usize> = Vec::new();
    first.push(0);
    for m in 0..cols
        invariant
            cols == new@.len(),
            first@.len() == m + 1,
            forall|k: int| 0 <= k <= m ==> #[trigger] first@[k] == 0,
    {
        first.push(0);
    }
    assert(a.skip(rows as int) =~= Seq::<Seq<char>>::empty());
    assert(row_is(first@, a.skip(rows as int), b));
    table.push(first);
    for k in 0..rows
        invariant
            rows == old@.len(),
            a == token_views(old@),
            b == token_views(new@),
            table@.len() == k + 1,
            forall|n: int| 0 <= n <= k ==> row_is((#[trigger] table@[n])@, a.skip(rows - n), b),
    {
        let i: usize = rows - k - 1;
        assert(row_is(table@[k as int]@, a.skip(rows - k), b));
        let row = table_row(old, i, new, &table[k]);
        table.push(row);
    }
    let mut old_kept: Vec<bool> = Vec::new();
    let mut new_kept: Vec<bool> = Vec::new();
    let mut i: usize = 0;
    let mut j: usize = 0;
    let ghost whole = kept_masks(a, b);
    proof {
        assert(a.skip(0) =~= a);
        assert(b.skip(0) =~= b);
        lemma_kept_masks_len(a, b);
    }
    while i < rows && j < cols
        invariant
            i <= rows,
            j <= cols,
            rows == old@.len(),
            cols == new@.len(),
            a == token_views(old@),
            b == token_views(new@),
            table@.len() == rows + 1,
            forall|n: int| 0 <= n <= rows ==> row_is((#[trigger] table@[n])@, a.skip(rows - n), b),
            whole.0 =~= old_kept@ + kept_masks(a.skip(i as int), b.skip(j as int)).0,
            whole.1 =~= new_kept@ + kept_masks(a.skip(i as int), b.skip(j as int)).1,
        decreases rows - i + cols - j,
    {
        let ghost x = a.skip(i as int);
        let ghost y = b.skip(j as int);
        proof {
            assert(x[0] == old@[i as int]@);
            assert(y[0] == new@[j as int]@);
            assert(x.skip(1) =~= a.skip(i + 1));
            assert(y.skip(1) =~= b.skip(j + 1));
            assert(row_is(table@[rows - i - 1]@, a.skip(i + 1), b));
            assert(row_is(table@[rows - i]@, a.skip(i as int), b));
            assert(table@[rows - i - 1]@[cols - j] == common_len(x.skip(1), b.skip(b.len() - (cols - j))));
            assert(table@[rows - i]@[cols - j - 1] == common_len(x, b.skip(b.len() - (cols - j - 1))));
        }
        if same_chars(&old[i], &new[j]) {
            old_kept.push(true);
            new_kept.push(true);
            i += 1;
            j += 1;
        } else if table[rows - i - 1][cols - j] >= table[rows - i][cols - j - 1] {
            old_kept.push(false);
            i += 1;
        } else {
            new_kept.push(false);
            j += 1;
        }
    }
    let ghost (p, q) = kept_masks(a.skip(i as int), b.skip(j as int));
    let ghost old_head = old_kept@;
    let ghost new_head = new_kept@;
    while i < rows
        invariant
            i <= rows,
            rows == a.len(),
            old_head.len() <= old_kept@.len(),
            old_kept@ =~= old_head + Seq::new((old_kept@.len() - old_head.len()) as nat, |k: int| false),
            rows - i + old_kept@.len() == p.len() + old_head.len(),
        decreases rows - i,
    {
        old_kept.push(false);
        i += 1;
    }
    while j < cols
        invariant
            j <= cols,
            cols == b.len(),
            new_head.len() <= new_kept@.len(),
            new_kept@ =~= new_head + Seq::new((new_kept@.len() - new_head.len()) as nat, |k: int| false),
            cols - j + new_kept@.len() == q.len() + new_head.len(),
        decreases cols - j,
    {
        new_kept.push(false);
        j += 1;
    }
    (old_kept, new_kept)
}

/// How many bytes of a line the first `n` tokens take, with the marker.
pub open spec fn bytes_before(tokens: Seq<Seq<char>>, offset: nat) -> nat {
    offset + byte_len(concatenated(tokens))
}

/// The spans of a line: the marker, which is unchanged by definition, and the
/// tokens, changed where they are not kept. Neighbours that agree are one span.
pub open spec fn spans_of(tokens: Seq<Seq<char>>, mask: Seq<bool>, offset: nat) -> Seq<Span>
    decreases tokens.len(),
{
    if tokens.len() == 0 {
        if offset > 0 {
            seq![Span { start: 0, end: offset as usize, changed: false }]
        } else {
            Seq::empty()
        }
    } else {
        let before = spans_of(tokens.drop_last(), mask, offset);
        let at = bytes_before(tokens.drop_last(), offset);
        let end = bytes_before(tokens, offset);
        let changed = !mask[tokens.len() - 1];
        if before.len() > 0 && before.last().changed == changed {
            before.update(before.len() - 1, Span { end: end as usize, ..before.last() })
        } else {
            before.push(Span { start: at as usize, end: end as usize, changed })
        }
    }
}

/// Whether spans follow one another without a gap from the start of a line of
/// `n` bytes to its end.
pub open spec fn tile(spans: Seq<Span>, n: nat) -> bool {
    &&& spans.len() == 0 ==> n == 0
    &&& spans.len() > 0 ==> spans[0].start == 0 && spans.last().end == n
    &&& forall|i: int| 0 < i < spans.len() ==> (#[trigger] spans[i]).start == spans[i - 1].end
    &&& forall|i: int| 0 <= i < spans.len() ==> (#[trigger] spans[i]).start <= spans[i].end
}

proof fn lemma_spans_tile(tokens: Seq<Seq<char>>, mask: Seq<bool>, offset: nat)
    requires
        bytes_before(tokens, offset) <= usize::MAX,
    ensures
        tile(spans_of(tokens, mask, offset), bytes_before(tokens, offset)),
        tokens.len() > 0 ==> spans_of(tokens, mask, offset).len() > 0,
        spans_of(tokens, mask, offset).len() > 0 && offset > 0 ==> !spans_of(
            tokens,
            mask,
            offset,
        )[0].changed,
    decreases tokens.len(),
{
    if tokens.len() > 0 {
        lemma_byte_len_add(concatenated(tokens.drop_last()), tokens.last());
        lemma_spans_tile(tokens.drop_last(), mask, offset);
        let before = spans_of(tokens.drop_last(), mask, offset);
        let r = spans_of(tokens, mask, offset);
        assert forall|i: int| 0 < i < r.len() implies (#[trigger] r[i]).start == r[i - 1].end by {
            if i < before.len() {
                assert(before[i].start == before[i - 1].end);
            }
        }
    } else {
        assert(concatenated(tokens) =~= Seq::<char>::empty());
        assert(byte_len(Seq::<char>::empty()) == 0);
    }
}

/// Turn a token list and its mask into byte spans over the original line.
///
/// Adjacent tokens of the same kind are merged, so a changed identifier and the
/// changed bracket beside it become one highlighted run rather than two.
fn spans_from(tokens: &Vec<Vec<char>>, kept: &Vec<bool>, offset: usize) -> (r: Vec<Span>)
    requires
        kept@.len() == tokens@.len(),
        bytes_before(token_views(tokens@), offset as nat) <= usize::MAX,
    ensures
        r@ == spans_of(token_views(tokens@), kept@, offset as nat),
{
    let ghost all = token_views(tokens@);
    let mut spans: Vec<Span> = Vec::new();
    if offset > 0 {
        spans.push(Span { start: 0, end: offset, changed: false });
    }
    let mut at: usize = offset;
    proof {
        assert(all.take(0) =~= Seq::<Seq<char>>::empty());
        assert(concatenated(all.take(0)) =~= Seq::<char>::empty());
        assert(byte_len(Seq::<char>::empty()) == 0);
    }
    for i in 0..tokens.len()
        invariant
            kept@.len() == tokens@.len(),
            all == token_views(tokens@),
            bytes_before(all, offset as nat) <= usize::MAX,
            at == bytes_before(all.take(i as int), offset as nat),
            spans@ == spans_of(all.take(i as int), kept@, offset as nat),
    {
        let ghost front = all.take(i + 1);
        proof {
            assert(front.drop_last() =~= all.take(i as int));
            assert(front.last() == tokens@[i as int]@);
            lemma_byte_len_add(concatenated(all.take(i as int)), tokens@[i as int]@);
            lemma_bytes_monotone(all, i + 1);
        }
        let end: usize = at + bytes_of(&tokens[i]);
        let changed: bool = !kept[i];
        let n: usize = spans.len();
        if n > 0 && spans[n - 1].changed == changed {
            let last: Span = spans[n - 1];
            spans.set(n - 1, Span { start: last.start, end, changed: last.changed });
        } else {
            spans.push(Span { start: at, end, changed });
        }
        at = end;
    }
    assert(all.take(all.len() as int) =~= all);
    spans
}

proof fn lemma_bytes_monotone(tokens: Seq<Seq<char>>, n: int)
    requires
        0 <= n <= tokens.len(),
    ensures
        byte_len(concatenated(tokens.take(n))) <= byte_len(concatenated(tokens)),
    decreases tokens.len(),
{
    if n < tokens.len() {
        lemma_bytes_monotone(tokens.drop_last(), n);
        assert(tokens.drop_last().take(n) =~= tokens.take(n));
        lemma_byte_len_add(concatenated(tokens.drop_last()), tokens.last());
    } else {
        assert(tokens.take(n) =~= tokens);
    }
}

/// How many bytes the changed spans take.
pub open spec fn changed_bytes(spans: Seq<Span>) -> int
    decreases spans.len(),
{
    if spans.len() == 0 {
        0
    } else {
        changed_bytes(spans.drop_last()) + if spans.last().changed {
            spans.last().end - spans.last().start
        } else {
            0
        }
    }
}

/// Whether more than three quarters of a line's bytes changed.
///
/// Above this fraction the word-level answer stops being more informative than
/// the line-level one.
pub open spec fn is_rewrite(spans: Seq<Span>, total: nat) -> bool {
    4 * changed_bytes(spans) > 3 * total
}

proof fn lemma_changed_bound(spans: Seq<Span>, n: nat)
    requires
        tile(spans, n),
    ensures
        0 <= changed_bytes(spans) <= n,
    decreases spans.len(),
{
    if spans.len() > 0 {
        let front = spans.drop_last();
        let m = if front.len() == 0 {
            0
        } else {
            front.last().end as nat
        };
        assert forall|i: int| 0 < i < front.len() implies (#[trigger] front[i]).start == front[i
            - 1].end by {
            assert(spans[i].start == spans[i - 1].end);
        }
        assert forall|i: int| 0 <= i < front.len() implies (#[trigger] front[i]).start
            <= front[i].end by {
            assert(spans[i].start <= spans[i].end);
        }
        lemma_changed_bound(front, m);
        if front.len() > 0 {
            assert(spans[spans.len() - 1].start == spans[spans.len() - 2].end);
        }
        assert(spans[spans.len() - 1].start <= spans[spans.len() - 1].end);
    }
}

fn mostly_changed(spans: &Vec<Span>, total: usize) -> (r: bool)
    requires
        tile(spans@, total as nat),
        total <= MAX_LINE + 1,
    ensures
        r == is_rewrite(spans@, total as nat),
{
    let mut changed: usize = 0;
    let ghost all = spans@;
    assert(all.take(0) =~= Seq::<Span>::empty());
    for i in 0..spans.len()
        invariant
            all == spans@,
            tile(all, total as nat),
            total <= MAX_LINE + 1,
            changed == changed_bytes(all.take(i as int)),
            i == 0 ==> changed == 0,
            i > 0 ==> changed <= all[i - 1].end,
            i > 0 ==> all[i - 1].end <= total,
    {
        proof {
            assert(all.take(i + 1).drop_last() =~= all.take(i as int));
            assert(all[i as int].start <= all[i as int].end);
            lemma_ends_within(all, total as nat, i as int);
            if i > 0 {
                assert(all[i as int].start == all[i - 1].end);
            }
        }
        if spans[i].changed {
            changed = changed + (spans[i].end - spans[i].start);
        }
    }
    proof {
        assert(all.take(all.len() as int) =~= all);
        lemma_changed_bound(all, total as nat);
    }
    4 * changed > 3 * total
}

proof fn lemma_ends_within(spans: Seq<Span>, n: nat, i: int)
    requires
        tile(spans, n),
        0 <= i < spans.len(),
    ensures
        spans[i].end <= n,
    decreases spans.len() - i,
{
    if i + 1 < spans.len() {
        lemma_ends_within(spans, n, i + 1);
        assert(spans[i + 1].start == spans[i].end);
        assert(spans[i + 1].start <= spans[i + 1].end);
    }
}

/// Whether a line starts with a diff marker.
pub open spec fn has_marker(line: Seq<char>) -> bool {
    line.len() > 0 && (line[0] == '+' || line[0] == '-' || line[0] == ' ')
}

/// The width of the marker at the start of a line.
pub open spec fn marker_width(line: Seq<char>) -> nat {
    if has_marker(line) {
        1
    } else {
        0
    }
}

/// One span covering the whole line, marked unchanged.
///
/// The fallback shape: the line keeps its single colour, since the caller
/// renders an all-unchanged line with its line style.
pub open spec fn whole_line(line: Seq<char>) -> Seq<Span> {
    seq![Span { start: 0, end: byte_len(line) as usize, changed: false }]
}

/// The word-level spans of two lines that are compared.
pub open spec fn word_spans(old: Seq<char>, new: Seq<char>) -> (Seq<Span>, Seq<Span>) {
    let a = tokens_of(old.skip(marker_width(old) as int));
    let b = tokens_of(new.skip(marker_width(new) as int));
    let (x, y) = kept_masks(a, b);
    (spans_of(a, x, marker_width(old)), spans_of(b, y, marker_width(new)))
}

/// Whether two lines are left whole: one is too long to be compared, or the
/// comparison would mark nearly all of one.
pub open spec fn left_whole(old: Seq<char>, new: Seq<char>) -> bool {
    let (x, y) = word_spans(old, new);
    ||| byte_len(old.skip(marker_width(old) as int)) > MAX_LINE
    ||| byte_len(new.skip(marker_width(new) as int)) > MAX_LINE
    ||| is_rewrite(x, byte_len(old))
    ||| is_rewrite(y, byte_len(new))
}

/// What the comparison of two lines gives for each of them.
pub open spec fn compared(old: Seq<char>, new: Seq<char>) -> (Seq<Span>, Seq<Span>) {
    if left_whole(old, new) {
        (whole_line(old), whole_line(new))
    } else {
        word_spans(old, new)
    }
}

proof fn lemma_body_bytes(line: Seq<char>)
    ensures
        byte_len(line) == marker_width(line) + byte_len(line.skip(marker_width(line) as int)),
{
    let n = marker_width(line) as int;
    assert(line =~= line.take(n) + line.skip(n));
    lemma_byte_len_add(line.take(n), line.skip(n));
    if n == 0 {
        assert(line.take(0) =~= Seq::<char>::empty());
        assert(byte_len(Seq::<char>::empty()) == 0);
    } else {
        let one = line.take(1);
        assert(one.drop_first() =~= Seq::<char>::empty());
        assert(byte_len(one.drop_first()) == 0);
        assert(one[0] == line[0]);
    }
}

/// The spans of two compared lines follow one another without a gap from the
/// start of their line to its end, and the diff marker is never part of a
/// change.
pub proof fn spans_tile_the_line(old: Seq<char>, new: Seq<char>)
    requires
        byte_len(old) <= usize::MAX,
        byte_len(new) <= usize::MAX,
    ensures
        tile(compared(old, new).0, byte_len(old)),
        tile(compared(old, new).1, byte_len(new)),
        has_marker(old) ==> compared(old, new).0.len() > 0 && !compared(old, new).0[0].changed,
        has_marker(new) ==> compared(old, new).1.len() > 0 && !compared(old, new).1[0].changed,
{
    if !left_whole(old, new) {
        lemma_body_bytes(old);
        lemma_body_bytes(new);
        let a = old.skip(marker_width(old) as int);
        let b = new.skip(marker_width(new) as int);
        tokens_make_the_line(a);
        tokens_make_the_line(b);
        let (x, y) = kept_masks(tokens_of(a), tokens_of(b));
        lemma_spans_tile(tokens_of(a), x, marker_width(old));
        lemma_spans_tile(tokens_of(b), y, marker_width(new));
    }
}

fn whole(line: &str) -> (r: Vec<Span>)
    ensures
        r@ == whole_line(line@),
{
    let mut out: Vec<Span> = Vec::new();
    out.push(Span { start: 0, end: bytes_in(line), changed: false });
    assert(out@ =~= whole_line(line@));
    out
}

/// Spans of `new` that are not in `old`, and of `old` that are not in `new`.
///
/// Returns `(old_spans, new_spans)`. Both cover their whole line, changed and
/// unchanged runs alike, so a caller can render one line by walking one list.
///
/// The comparison strips the leading `-`/`+` marker, then puts it back as an
/// unchanged span: the marker is not part of the text and would otherwise
/// report every line as starting with a change.
pub fn compare(old: &str, new: &str) -> (r: (Vec<Span>, Vec<Span>))
    ensures
        (r.0@, r.1@) == compared(old@, new@),
{
    let a = chars_of(old);
    let b = chars_of(new);
    let old_offset: usize = if a.len() > 0 && (a[0] == '+' || a[0] == '-' || a[0] == ' ') {
        1
    } else {
        0
    };
    let new_offset: usize = if b.len() > 0 && (b[0] == '+' || b[0] == '-' || b[0] == ' ') {
        1
    } else {
        0
    };
    let old_total: usize = bytes_in(old);
    let new_total: usize = bytes_in(new);
    proof {
        lemma_body_bytes(old@);
        lemma_body_bytes(new@);
        tokens_make_the_line(a@.skip(old_offset as int));
        tokens_make_the_line(b@.skip(new_offset as int));
    }
    if old_total - old_offset > MAX_LINE || new_total - new_offset > MAX_LINE {
        return (whole(old), whole(new));
    }
    let old_tokens = tokenize(&a, old_offset);
    let new_tokens = tokenize(&b, new_offset);
    let (old_kept, new_kept) = common(&old_tokens, &new_tokens);
    proof {
        lemma_kept_masks_len(token_views(old_tokens@), token_views(new_tokens@));
        lemma_spans_tile(token_views(old_tokens@), old_kept@, old_offset as nat);
        lemma_spans_tile(token_views(new_tokens@), new_kept@, new_offset as nat);
    }
    let old_spans = spans_from(&old_tokens, &old_kept, old_offset);
    let new_spans = spans_from(&new_tokens, &new_kept, new_offset);
    // Two lines with nothing in common are not a rewrite of each other; saying
    // so word by word is noise, and the whole-line colour already said it.
    if mostly_changed(&old_spans, old_total) || mostly_changed(&new_spans, new_total) {
        return (whole(old), whole(new));
    }
    (old_spans, new_spans)
}

/// Where the run of lines of one kind that starts at `from` ends.
pub open spec fn run_end(lines: Seq<DiffLine>, from: int, kind: DiffLineKind) -> int
    decreases lines.len() - from,
{
    if 0 <= from < lines.len() && lines[from].kind == kind {
        run_end(lines, from + 1, kind)
    } else {
        from
    }
}

/// Where the run of lines of one kind that ends right before `to` starts.
pub open spec fn run_start(lines: Seq<DiffLine>, to: int, kind: DiffLineKind) -> int
    decreases to,
{
    if 0 < to <= lines.len() && lines[to - 1].kind == kind {
        run_start(lines, to - 1, kind)
    } else {
        to
    }
}

/// The line that a line is compared with, if any.
///
/// A modified line shows as a run of removals followed by a run of additions.
/// They pair by position within those runs; what has no counterpart at its
/// position stays unpaired.
pub open spec fn partner(lines: Seq<DiffLine>, i: int) -> Option<int> {
    if lines[i].kind == DiffLineKind::Removed {
        let start = run_start(lines, i, DiffLineKind::Removed);
        let middle = run_end(lines, i, DiffLineKind::Removed);
        let end = run_end(lines, middle, DiffLineKind::Added);
        if middle + (i - start) < end {
            Some(middle + (i - start))
        } else {
            None
        }
    } else if lines[i].kind == DiffLineKind::Added {
        let middle = run_start(lines, i, DiffLineKind::Added);
        let start = run_start(lines, middle, DiffLineKind::Removed);
        if start + (i - middle) < middle {
            Some(start + (i - middle))
        } else {
            None
        }
    } else {
        None
    }
}

/// The word-level spans of line `i`, if it is compared with another.
pub open spec fn spans_at(lines: Seq<DiffLine>, i: int) -> Option<Seq<Span>> {
    match partner(lines, i) {
        Some(j) => if lines[i].kind == DiffLineKind::Removed {
            Some(compared(lines[i].text@, lines[j].text@).0)
        } else {
            Some(compared(lines[j].text@, lines[i].text@).1)
        },
        None => None,
    }
}

/// The spans of an optional list.
pub open spec fn spans_view(o: Option<Vec<Span>>) -> Option<Seq<Span>> {
    match o {
        Some(v) => Some(v@),
        None => None,
    }
}

/// A run lies within the diff, and holds its kind and no more.
pub proof fn lemma_run_end(lines: Seq<DiffLine>, from: int, kind: DiffLineKind)
    requires
        0 <= from <= lines.len(),
    ensures
        from <= run_end(lines, from, kind) <= lines.len(),
        forall|k: int| from <= k < run_end(lines, from, kind) ==> lines[k].kind == kind,
        run_end(lines, from, kind) < lines.len() ==> lines[run_end(lines, from, kind)].kind != kind,
        forall|k: int|
            from <= k <= run_end(lines, from, kind) ==> #[trigger] run_end(lines, k, kind) == run_end(
                lines,
                from,
                kind,
            ),
    decreases lines.len() - from,
{
    if from < lines.len() && lines[from].kind == kind {
        lemma_run_end(lines, from + 1, kind);
    }
}

pub(crate) proof fn lemma_run_start_in(lines: Seq<DiffLine>, start: int, i: int, kind: DiffLineKind)
    requires
        0 <= start <= i <= lines.len(),
        forall|k: int| start <= k < i ==> lines[k].kind == kind,
        start > 0 ==> lines[start - 1].kind != kind,
    ensures
        run_start(lines, i, kind) == start,
    decreases i,
{
    if i > start {
        lemma_run_start_in(lines, start, i - 1, kind);
    }
}

pub(crate) proof fn lemma_run_start_bound(lines: Seq<DiffLine>, to: int, kind: DiffLineKind)
    ensures
        run_start(lines, to, kind) <= to,
    decreases to,
{
    if 0 < to <= lines.len() && lines[to - 1].kind == kind {
        lemma_run_start_bound(lines, to - 1, kind);
    }
}

/// Where the run of lines of one kind that starts at `from` ends.
pub(crate) fn run_of(lines: &Vec<DiffLine>, from: usize, kind: DiffLineKind) -> (r: usize)
    requires
        from <= lines@.len(),
    ensures
        r == run_end(lines@, from as int, kind),
        from <= r <= lines@.len(),
{
    let mut at: usize = from;
    while at < lines.len() && lines[at].kind == kind
        invariant
            from <= at <= lines@.len(),
            run_end(lines@, from as int, kind) == run_end(lines@, at as int, kind),
        decreases lines@.len() - at,
    {
        at += 1;
    }
    at
}

/// Word-level spans for every line of a diff, indexed the same way.
///
/// `None` where a line has no counterpart to compare against — context, hunk
/// headers, and a removal or addition that stands alone. The renderer takes
/// that as "colour the whole line".
pub type Intraline = Vec<Option<Vec<Span>>>;

/// The entries up to `at` are those of their lines, and the rest are empty.
spec fn done_upto(spans: Seq<Option<Vec<Span>>>, lines: Seq<DiffLine>, at: int) -> bool {
    &&& spans.len() == lines.len()
    &&& forall|i: int| 0 <= i < at ==> spans_view(#[trigger] spans[i]) == spans_at(lines, i)
    &&& forall|i: int| at <= i < spans.len() ==> (#[trigger] spans[i]) is None
}

/// Pair up adjacent removals and additions and compare each pair.
///
/// Git emits a modified line as a run of removals followed by a run of
/// additions. Pairing them by position within those runs is what makes the
/// common case — one line replaced by one line — come out right, and is
/// deliberately not cleverer than that: a run of five removals followed by two
/// additions has no correspondence worth guessing at, so only the first two
/// pair up and the rest keep their line colour.
pub fn compute(lines: &Vec<DiffLine>) -> (r: Intraline)
    ensures
        r@.len() == lines@.len(),
        forall|i: int| 0 <= i < r@.len() ==> spans_view(#[trigger] r@[i]) == spans_at(lines@, i),
{
    let ghost all = lines@;
    let removed = DiffLineKind::Removed;
    let added = DiffLineKind::Added;
    let mut spans: Intraline = Vec::new();
    for i in 0..lines.len()
        invariant
            spans@.len() == i,
            forall|k: int| 0 <= k < i ==> (#[trigger] spans@[k]) is None,
    {
        spans.push(None);
    }
    let mut at: usize = 0;
    while at < lines.len()
        invariant
            all == lines@,
            removed == DiffLineKind::Removed,
            added == DiffLineKind::Added,
            at <= lines@.len(),
            done_upto(spans@, all, at as int),
            at < all.len() && all[at as int].kind == removed && at > 0 ==> all[at - 1].kind
                != removed,
            at < all.len() && all[at as int].kind == added ==> run_start(
                all,
                run_start(all, at as int, added),
                removed,
            ) == run_start(all, at as int, added),
        decreases lines@.len() - at,
    {
        if lines[at].kind != removed {
            proof {
                if all[at as int].kind == added {
                    lemma_run_start_bound(all, at as int, added);
                    assert(run_start(all, at + 1, added) == run_start(all, at as int, added));
                } else {
                    assert(run_start(all, at + 1, added) == at + 1);
                    assert(run_start(all, at + 1, removed) == at + 1);
                }
                assert(spans_at(all, at as int) is None);
            }
            at += 1;
        } else {
            let removed_end: usize = run_of(lines, at, removed);
            let added_end: usize = run_of(lines, removed_end, added);
            proof {
                lemma_run_end(all, at as int, removed);
                lemma_run_end(all, removed_end as int, added);
            }
            let mut k: usize = 0;
            while at + k < removed_end && removed_end + k < added_end
                invariant
                    all == lines@,
                    at < removed_end <= added_end <= lines.len(),
                    at + k <= removed_end,
                    removed_end + k <= added_end,
                    spans@.len() == all.len(),
                    forall|i: int| 0 <= i < at ==> spans_view(#[trigger] spans@[i]) == spans_at(all, i),
                    forall|i: int|
                        at <= i < at + k ==> spans_view(#[trigger] spans@[i]) == Some(
                            compared(all[i].text@, all[removed_end + (i - at)].text@).0,
                        ),
                    forall|i: int|
                        removed_end <= i < removed_end + k ==> spans_view(#[trigger] spans@[i])
                            == Some(compared(all[at + (i - removed_end)].text@, all[i].text@).1),
                    forall|i: int|
                        (at + k <= i < removed_end || removed_end + k <= i < all.len()) ==> (
                        #[trigger] spans@[i]) is None,
                decreases removed_end - k,
            {
                let (old_spans, new_spans) = compare(
                    lines[at + k].text.as_str(),
                    lines[removed_end + k].text.as_str(),
                );
                spans.set(at + k, Some(old_spans));
                spans.set(removed_end + k, Some(new_spans));
                k += 1;
            }
            proof {
                assert forall|i: int| 0 <= i < added_end implies spans_view(#[trigger] spans@[i])
                    == spans_at(all, i) by {
                    if at <= i < removed_end {
                        lemma_run_start_in(all, at as int, i, removed);
                        assert(run_end(all, i, removed) == removed_end);
                    } else if removed_end <= i < added_end {
                        assert(all[removed_end - 1].kind == removed);
                        lemma_run_start_in(all, removed_end as int, i, added);
                        lemma_run_start_in(all, at as int, removed_end as int, removed);
                    }
                }
                if added_end < all.len() && all[added_end as int].kind == removed {
                    assert(added_end > removed_end);
                    assert(all[added_end - 1].kind == added);
                }
            }
            at = added_end;
        }
    }
    spans
}

} // verus!
