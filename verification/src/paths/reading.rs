//! What a path is made of.

use vstd::prelude::*;

use crate::paths::{
    file_name_of, is_rooted, joined, lemma_text_order, part_of, parts, parts_from, parts_less,
    text_less, Part,
};
use crate::seqs::{
    index_of, join_with, lemma_index_is, lemma_index_of, lemma_join_split, split_on,
};

verus! {

/// Whether a text can be the name of a file: there is something to it, it has no
/// separator in it, and it is neither of the two that stand for a directory.
pub open spec fn is_name(s: Seq<char>) -> bool {
    s.len() > 0 && !s.contains('/') && s != seq!['.'] && s != seq!['.', '.']
}

proof fn lemma_parts_from(names: Seq<Seq<char>>, k: int)
    requires
        forall|i: int| 0 <= i < names.len() ==> is_name(#[trigger] names[i]),
        0 <= k <= names.len(),
    ensures
        parts_from(names, k) == names.skip(k).map_values(|n: Seq<char>| Part::Name(n)),
    decreases names.len() - k,
{
    if k < names.len() {
        assert(is_name(names[k]));
        lemma_parts_from(names, k + 1);
        assert(names.skip(k + 1) =~= names.skip(k).skip(1));
        assert(parts_from(names, k) =~= names.skip(k).map_values(|n: Seq<char>| Part::Name(n)));
    } else {
        assert(parts_from(names, k) =~= names.skip(k).map_values(|n: Seq<char>| Part::Name(n)));
    }
}

/// A path is its names, one below the other; with a separator before them it
/// starts at the root.
pub proof fn a_path_is_its_names(names: Seq<Seq<char>>)
    requires
        names.len() > 0,
        forall|i: int| 0 <= i < names.len() ==> is_name(#[trigger] names[i]),
    ensures
        parts(join_with(names, seq!['/'])) == names.map_values(|n: Seq<char>| Part::Name(n)),
        parts(seq!['/'] + join_with(names, seq!['/'])) == seq![Part::Root] + names.map_values(
            |n: Seq<char>| Part::Name(n),
        ),
        file_name_of(join_with(names, seq!['/'])) == Some(names.last()),
{
    let s = join_with(names, seq!['/']);
    let all = names.map_values(|n: Seq<char>| Part::Name(n));
    assert forall|k: int, j: int| 0 <= k < names.len() && 0 <= j < names[k].len() implies names[k][j]
        != '/' by {
        assert(is_name(names[k]));
        assert(names[k].contains(names[k][j]));
    }
    lemma_join_split(names, '/');
    lemma_parts_from(names, 0);
    assert(names.skip(0) =~= names);
    assert(is_name(names[0]));
    assert(s[0] == names[0][0]) by {
        if names.len() > 1 {
            assert(s == names[0] + seq!['/'] + join_with(names.skip(1), seq!['/']));
        }
    }
    assert(!is_rooted(s));
    assert(parts(s) == all);
    assert(all.last() == Part::Name(names.last()));
    let t = seq!['/'] + s;
    lemma_index_is(t, '/', 0);
    assert(t.take(0) =~= Seq::<char>::empty());
    assert(t.skip(1) =~= s);
    let pieces = split_on(t, '/');
    assert(pieces =~= seq![Seq::<char>::empty()] + names);
    lemma_parts_shift(names, 0);
    assert(parts_from(pieces, 0) == parts_from(pieces, 1));
    assert(parts_from(pieces, 1) == all);
}

proof fn lemma_parts_shift(names: Seq<Seq<char>>, k: int)
    requires
        forall|i: int| 0 <= i < names.len() ==> is_name(#[trigger] names[i]),
        0 <= k <= names.len(),
    ensures
        parts_from(seq![Seq::<char>::empty()] + names, k + 1) == parts_from(names, k),
    decreases names.len() - k,
{
    let pieces = seq![Seq::<char>::empty()] + names;
    if k < names.len() {
        assert(is_name(names[k]));
        assert(pieces[k + 1] == names[k]);
        lemma_parts_shift(names, k + 1);
    }
}

/// A separator too many makes no difference: not at the end, and not between two
/// names.
pub proof fn a_separator_too_many_makes_no_difference(p: Seq<char>, rest: Seq<char>)
    requires
        p.len() > 0,
        p.last() == '/',
    ensures
        parts(p + seq!['/'] + rest) == parts(p + rest),
        parts(p.push('/')) == parts(p),
    decreases p.len(),
{
    let pieces = split_on(p + rest, '/');
    let more = split_on(p + seq!['/'] + rest, '/');
    lemma_extra_piece(p, rest);
    let n = split_on(p, '/').len() - 1;
    lemma_extra_parts(pieces, more, n, 0);
    assert(p + seq!['/'] + Seq::<char>::empty() =~= p.push('/'));
    assert(p + Seq::<char>::empty() =~= p);
    lemma_extra_piece(p, Seq::empty());
    lemma_extra_parts(split_on(p + Seq::<char>::empty(), '/'), split_on(
        p + seq!['/'] + Seq::<char>::empty(),
        '/',
    ), n, 0);
}

/// One more separator puts one more empty piece behind the first `n`.
proof fn lemma_extra_piece(p: Seq<char>, rest: Seq<char>)
    requires
        p.len() > 0,
        p.last() == '/',
    ensures
        split_on(p, '/').len() >= 2,
        split_on(p + seq!['/'] + rest, '/') == split_on(p + rest, '/').insert(
            split_on(p, '/').len() - 1,
            Seq::empty(),
        ),
        split_on(p, '/').len() - 1 <= split_on(p + rest, '/').len(),
    decreases p.len(),
{
    lemma_index_of(p, '/');
    let i = index_of(p, '/') as int;
    assert(p[p.len() - 1] == '/');
    let s = p + rest;
    let t = p + seq!['/'] + rest;
    assert forall|j: int| 0 <= j < i implies s[j] != '/' && t[j] != '/' by {
        assert(s[j] == p[j] && t[j] == p[j]);
    }
    lemma_index_is(s, '/', i);
    lemma_index_is(t, '/', i);
    assert(s.take(i) =~= p.take(i));
    assert(t.take(i) =~= p.take(i));
    let q = p.skip(i + 1);
    assert(s.skip(i + 1) =~= q + rest);
    assert(t.skip(i + 1) =~= q + seq!['/'] + rest);
    if q.len() == 0 {
        let u = q + seq!['/'] + rest;
        lemma_index_is(u, '/', 0);
        assert(u.take(0) =~= Seq::<char>::empty());
        assert(u.skip(1) =~= rest);
        assert(q + rest =~= rest);
        lemma_index_is(q, '/', 0);
        assert(split_on(q, '/') =~= seq![q]);
        assert(split_on(p, '/') =~= seq![p.take(i), q]);
        assert(split_on(u, '/') == seq![Seq::<char>::empty()] + split_on(rest, '/'));
        assert(split_on(s, '/') == seq![p.take(i)] + split_on(rest, '/'));
        assert(split_on(t, '/') == seq![p.take(i)] + split_on(u, '/'));
        assert(split_on(t, '/') =~= split_on(s, '/').insert(1, Seq::empty()));
    } else {
        assert(q.last() == p.last());
        lemma_extra_piece(q, rest);
        assert(split_on(t, '/') =~= split_on(s, '/').insert(
            split_on(p, '/').len() - 1,
            Seq::empty(),
        ));
    }
}

proof fn lemma_extra_parts(pieces: Seq<Seq<char>>, more: Seq<Seq<char>>, n: int, k: int)
    requires
        1 <= n <= pieces.len(),
        more == pieces.insert(n, Seq::empty()),
        0 <= k <= pieces.len(),
    ensures
        k <= n ==> parts_from(more, k) == parts_from(pieces, k),
        k > 0 ==> (k >= n ==> parts_from(more, k + 1) == parts_from(pieces, k)),
    decreases pieces.len() - k,
{
    if k < pieces.len() {
        lemma_extra_parts(pieces, more, n, k + 1);
        if k < n {
            assert(more[k] == pieces[k]);
        }
        if k >= n {
            assert(more[k + 1] == pieces[k]);
            assert(part_of(more[k + 1], k + 1) == part_of(pieces[k], k));
        }
        if k == n {
            assert(more[n] == Seq::<char>::empty());
            assert(parts_from(more, n) == parts_from(more, n + 1));
        }
    } else {
        if k == n {
            assert(more[n] == Seq::<char>::empty());
            assert(parts_from(more, n) == parts_from(more, n + 1));
        }
    }
}

/// A path below another is what stands below it: the other's text, a separator
/// where there is none yet, and its own. A path from the root stays what it is.
pub proof fn what_is_below_a_path_follows_it(base: Seq<char>, rel: Seq<char>)
    ensures
        rel.len() > 0 && rel[0] == '/' ==> joined(base, rel) == rel,
        !(rel.len() > 0 && rel[0] == '/') ==> base.is_prefix_of(joined(base, rel))
            && rel.is_suffix_of(joined(base, rel)),
        !(rel.len() > 0 && rel[0] == '/') && base.len() > 0 && base.last() != '/' ==> joined(
            base,
            rel,
        ) == base.push('/') + rel,
        !(rel.len() > 0 && rel[0] == '/') && (base.len() == 0 || base.last() == '/') ==> joined(
            base,
            rel,
        ) == base + rel,
{
    let j = joined(base, rel);
    if !(rel.len() > 0 && rel[0] == '/') {
        assert(base.push('/') + rel =~= base + seq!['/'] + rel);
        assert(j.subrange(0, base.len() as int) =~= base);
        assert(j.subrange(j.len() - rel.len(), j.len() as int) =~= rel);
    }
}

/// Of two texts the one with the smaller character comes first, where they first
/// differ, and the shorter one where they do not.
pub proof fn the_first_difference_decides(
    common: Seq<char>,
    c: char,
    d: char,
    a: Seq<char>,
    b: Seq<char>,
)
    requires
        c < d,
    ensures
        text_less(common + seq![c] + a, common + seq![d] + b),
        !text_less(common + seq![d] + b, common + seq![c] + a),
        b.len() > 0 ==> text_less(common, common + b) && !text_less(common + b, common),
    decreases common.len(),
{
    let x = common + seq![c] + a;
    let y = common + seq![d] + b;
    let z = common + b;
    if common.len() > 0 {
        let rest = common.skip(1);
        the_first_difference_decides(rest, c, d, a, b);
        assert(x.skip(1) =~= rest + seq![c] + a);
        assert(y.skip(1) =~= rest + seq![d] + b);
        assert(z.skip(1) =~= rest + b);
    } else {
        assert(x[0] == c && y[0] == d);
        assert(z =~= b);
    }
}

/// Of two paths the one with the smaller name comes first, where they first differ,
/// and a directory comes before what is in it.
pub proof fn the_first_different_name_decides(
    common: Seq<Part>,
    x: Seq<char>,
    y: Seq<char>,
    a: Seq<Part>,
    b: Seq<Part>,
)
    requires
        text_less(x, y),
    ensures
        parts_less(common + seq![Part::Name(x)] + a, common + seq![Part::Name(y)] + b),
        b.len() > 0 ==> parts_less(common, common + b) && !parts_less(common + b, common),
    decreases common.len(),
{
    let p = common + seq![Part::Name(x)] + a;
    let q = common + seq![Part::Name(y)] + b;
    let r = common + b;
    lemma_text_order(x, y);
    if common.len() > 0 {
        let rest = common.skip(1);
        the_first_different_name_decides(rest, x, y, a, b);
        assert(p.skip(1) =~= rest + seq![Part::Name(x)] + a);
        assert(q.skip(1) =~= rest + seq![Part::Name(y)] + b);
        assert(r.skip(1) =~= rest + b);
    } else {
        assert(p[0] == Part::Name(x) && q[0] == Part::Name(y));
        assert(r =~= b);
    }
}

} // verus!
