//! Statements about sequences that several modules share.

use vstd::prelude::*;

verus! {

/// The position of the first `x` in `s`, or the length of `s` without one.
pub open spec fn index_of<T>(s: Seq<T>, x: T) -> nat
    decreases s.len(),
{
    if s.len() == 0 || s[0] == x {
        0
    } else {
        1 + index_of(s.skip(1), x)
    }
}

/// The pieces of `s` between the occurrences of `x`; one more than there are
/// occurrences.
pub open spec fn split_on<T>(s: Seq<T>, x: T) -> Seq<Seq<T>>
    decreases s.len(),
{
    let i = index_of(s, x);
    if i < s.len() {
        seq![s.take(i as int)] + split_on(s.skip(i as int + 1), x)
    } else {
        seq![s]
    }
}

/// `index_of` is the first position that holds `x`.
pub proof fn lemma_index_of<T>(s: Seq<T>, x: T)
    ensures
        index_of(s, x) <= s.len(),
        forall|j: int| 0 <= j < index_of(s, x) ==> s[j] != x,
        index_of(s, x) < s.len() ==> s[index_of(s, x) as int] == x,
    decreases s.len(),
{
    if s.len() == 0 || s[0] == x {
    } else {
        let rest = s.skip(1);
        lemma_index_of(rest, x);
        assert forall|j: int| 0 <= j < index_of(s, x) implies s[j] != x by {
            if j > 0 {
                assert(rest[j - 1] == s[j]);
            }
        }
        if index_of(s, x) < s.len() {
            assert(rest[index_of(rest, x) as int] == s[index_of(s, x) as int]);
        }
    }
}

/// A position that behaves like the first one is the first one.
pub proof fn lemma_index_is<T>(s: Seq<T>, x: T, i: int)
    requires
        0 <= i <= s.len(),
        forall|j: int| 0 <= j < i ==> s[j] != x,
        i < s.len() ==> s[i] == x,
    ensures
        index_of(s, x) == i,
{
    lemma_index_of(s, x);
    let k = index_of(s, x) as int;
    if k < i {
        assert(s[k] == x);
    } else if i < k {
        assert(s[i] != x);
    }
}

/// Joining the pieces of a split with the separator gives the sequence back.
pub open spec fn join_with<T>(parts: Seq<Seq<T>>, sep: Seq<T>) -> Seq<T>
    decreases parts.len(),
{
    if parts.len() == 0 {
        Seq::empty()
    } else if parts.len() == 1 {
        parts[0]
    } else {
        parts[0] + sep + join_with(parts.skip(1), sep)
    }
}

/// Putting one more piece at the end of a join.
pub proof fn lemma_join_push<T>(parts: Seq<Seq<T>>, last: Seq<T>, sep: Seq<T>)
    ensures
        join_with(parts.push(last), sep) == if parts.len() == 0 {
            last
        } else {
            join_with(parts, sep) + sep + last
        },
    decreases parts.len(),
{
    let all = parts.push(last);
    if parts.len() == 0 {
    } else if parts.len() == 1 {
        assert(all.skip(1) =~= seq![last]);
        assert(join_with(all.skip(1), sep) == last);
    } else {
        assert(all.skip(1) =~= parts.skip(1).push(last));
        lemma_join_push(parts.skip(1), last, sep);
        assert(all[0] == parts[0]);
        assert(join_with(all, sep) =~= join_with(parts, sep) + sep + last);
    }
}

/// A split always yields at least one piece.
pub proof fn lemma_split_nonempty<T>(s: Seq<T>, x: T)
    ensures
        split_on(s, x).len() >= 1,
{
}

/// No piece of a split holds the separator, and joining the pieces with the
/// separator gives back what was split.
pub proof fn lemma_split_join<T>(s: Seq<T>, x: T)
    ensures
        join_with(split_on(s, x), seq![x]) == s,
        forall|k: int, j: int|
            0 <= k < split_on(s, x).len() && 0 <= j < split_on(s, x)[k].len() ==> split_on(s, x)[k][j]
                != x,
    decreases s.len(),
{
    lemma_index_of(s, x);
    let i = index_of(s, x) as int;
    if i < s.len() {
        let tail = s.skip(i + 1);
        let parts = split_on(s, x);
        lemma_split_join(tail, x);
        lemma_split_nonempty(tail, x);
        assert(parts.skip(1) =~= split_on(tail, x));
        assert(s =~= s.take(i) + seq![x] + tail);
        assert forall|k: int, j: int| 0 <= k < parts.len() && 0 <= j < parts[k].len() implies parts[k][j]
            != x by {
            if k > 0 {
                assert(parts[k] == split_on(tail, x)[k - 1]);
                assert(split_on(tail, x)[k - 1][j] != x);
            }
        }
    }
}

/// Splitting what was joined gives the pieces back, where none of them holds
/// the separator.
pub proof fn lemma_join_split<T>(parts: Seq<Seq<T>>, x: T)
    requires
        parts.len() >= 1,
        forall|k: int, j: int| 0 <= k < parts.len() && 0 <= j < parts[k].len() ==> parts[k][j] != x,
    ensures
        split_on(join_with(parts, seq![x]), x) == parts,
    decreases parts.len(),
{
    let whole = join_with(parts, seq![x]);
    let first = parts[0];
    if parts.len() == 1 {
        lemma_index_is(whole, x, whole.len() as int);
        assert(split_on(whole, x) =~= parts);
    } else {
        let rest = parts.skip(1);
        assert forall|k: int, j: int|
            0 <= k < rest.len() && 0 <= j < rest[k].len() implies rest[k][j] != x by {
            assert(parts[k + 1][j] != x);
        }
        lemma_join_split(rest, x);
        let tail = join_with(rest, seq![x]);
        assert(whole == first + seq![x] + tail);
        assert forall|j: int| 0 <= j < first.len() implies whole[j] != x by {
            assert(whole[j] == first[j]);
        }
        lemma_index_is(whole, x, first.len() as int);
        assert(whole.take(first.len() as int) =~= first);
        assert(whole.skip(first.len() as int + 1) =~= tail);
        assert(split_on(whole, x) =~= parts);
    }
}

} // verus!
