//! Putting things that have a path in the order of their paths.

use vstd::prelude::*;

use crate::paths::{
    before, path_less, path_order_total, path_order_transitive, same_as, same_path,
};

verus! {

/// Something that stands at a path.
pub trait Pathed {
    /// The path that it stands at.
    spec fn at(&self) -> Seq<char>;

    /// The path that it stands at.
    fn path_text(&self) -> (r: &str)
        ensures
            r@ == self.at(),
    ;
}

impl Pathed for String {
    open spec fn at(&self) -> Seq<char> {
        self@
    }

    fn path_text(&self) -> (r: &str) {
        self.as_str()
    }
}

/// `x` put before the first item of `s` that does not come before it.
pub open spec fn placed<T>(s: Seq<T>, x: T, key: spec_fn(T) -> Seq<char>) -> Seq<T>
    decreases s.len(),
{
    if s.len() > 0 && path_less(key(s[0]), key(x)) {
        seq![s[0]] + placed(s.skip(1), x, key)
    } else {
        seq![x] + s
    }
}

/// The items in the order of their paths; those at the same path stay in the
/// order they had.
pub open spec fn by_path<T>(s: Seq<T>, key: spec_fn(T) -> Seq<char>) -> Seq<T>
    decreases s.len(),
{
    if s.len() == 0 {
        s
    } else {
        placed(by_path(s.skip(1), key), s[0], key)
    }
}

/// No item comes before one that stands earlier.
pub open spec fn in_path_order<T>(s: Seq<T>, key: spec_fn(T) -> Seq<char>) -> bool {
    forall|i: int, j: int| 0 <= i < j < s.len() ==> !path_less(key(#[trigger] s[j]), key(#[trigger] s[i]))
}

/// The items that stand at the path `p`.
pub open spec fn standing_at<T>(s: Seq<T>, key: spec_fn(T) -> Seq<char>, p: Seq<char>) -> Seq<T> {
    s.filter(|x: T| same_path(key(x), p))
}

/// An item goes where everything before it comes first and nothing after it does.
proof fn lemma_placed_at<T>(s: Seq<T>, x: T, key: spec_fn(T) -> Seq<char>, pos: int)
    requires
        0 <= pos <= s.len(),
        forall|i: int| 0 <= i < pos ==> path_less(key(#[trigger] s[i]), key(x)),
        pos < s.len() ==> !path_less(key(s[pos]), key(x)),
    ensures
        placed(s, x, key) == s.insert(pos, x),
    decreases pos,
{
    if pos == 0 {
        assert(placed(s, x, key) =~= s.insert(0, x));
    } else {
        let rest = s.skip(1);
        assert forall|i: int| 0 <= i < pos - 1 implies path_less(key(#[trigger] rest[i]), key(x)) by {
            assert(rest[i] == s[i + 1]);
        }
        if pos < s.len() {
            assert(rest[pos - 1] == s[pos]);
        }
        lemma_placed_at(rest, x, key, pos - 1);
        assert(path_less(key(s[0]), key(x)));
        assert(placed(s, x, key) =~= s.insert(pos, x));
    }
}

proof fn lemma_position<T>(s: Seq<T>, x: T, key: spec_fn(T) -> Seq<char>) -> (pos: int)
    requires
        in_path_order(s, key),
    ensures
        0 <= pos <= s.len(),
        forall|i: int| 0 <= i < pos ==> path_less(key(#[trigger] s[i]), key(x)),
        forall|i: int| pos <= i < s.len() ==> !path_less(key(#[trigger] s[i]), key(x)),
        placed(s, x, key) == s.insert(pos, x),
    decreases s.len(),
{
    if s.len() > 0 && path_less(key(s[0]), key(x)) {
        let rest = s.skip(1);
        assert forall|i: int, j: int| 0 <= i < j < rest.len() implies !path_less(
            key(#[trigger] rest[j]),
            key(#[trigger] rest[i]),
        ) by {
            assert(rest[j] == s[j + 1] && rest[i] == s[i + 1]);
        }
        let p = lemma_position(rest, x, key);
        let pos = p + 1;
        assert forall|i: int| 0 <= i < pos implies path_less(key(#[trigger] s[i]), key(x)) by {
            if i > 0 {
                assert(rest[i - 1] == s[i]);
            }
        }
        assert forall|i: int| pos <= i < s.len() implies !path_less(key(#[trigger] s[i]), key(x)) by {
            assert(rest[i - 1] == s[i]);
        }
        lemma_placed_at(s, x, key, pos);
        pos
    } else {
        assert forall|i: int| 0 <= i < s.len() implies !path_less(key(#[trigger] s[i]), key(x)) by {
            if i > 0 && path_less(key(s[i]), key(x)) {
                assert(!path_less(key(s[i]), key(s[0])));
                path_order_total(key(s[i]), key(s[0]));
                path_order_total(key(x), key(s[0]));
                if path_less(key(s[0]), key(s[i])) {
                    path_order_transitive(key(s[0]), key(s[i]), key(x));
                } else {
                    assert(same_path(key(s[i]), key(s[0])));
                }
            }
        }
        lemma_placed_at(s, x, key, 0);
        0
    }
}

proof fn lemma_placed_order<T>(s: Seq<T>, x: T, key: spec_fn(T) -> Seq<char>)
    requires
        in_path_order(s, key),
    ensures
        in_path_order(placed(s, x, key), key),
{
    let pos = lemma_position(s, x, key);
    let r = s.insert(pos, x);
    assert forall|i: int, j: int| 0 <= i < j < r.len() implies !path_less(
        key(#[trigger] r[j]),
        key(#[trigger] r[i]),
    ) by {
        if j == pos {
            assert(r[i] == s[i]);
            path_order_total(key(s[i]), key(x));
        } else if i == pos {
            assert(r[j] == s[j - 1]);
        } else {
            let a = if i < pos {
                i
            } else {
                i - 1
            };
            let b = if j < pos {
                j
            } else {
                j - 1
            };
            assert(r[i] == s[a] && r[j] == s[b]);
        }
    }
}

proof fn lemma_placed_stable<T>(s: Seq<T>, x: T, key: spec_fn(T) -> Seq<char>, p: Seq<char>)
    requires
        in_path_order(s, key),
    ensures
        standing_at(placed(s, x, key), key, p) == standing_at(seq![x] + s, key, p),
{
    let pos = lemma_position(s, x, key);
    let f = |y: T| same_path(key(y), p);
    let a = s.take(pos);
    let b = s.skip(pos);
    assert(s.insert(pos, x) =~= a + (seq![x] + b));
    assert(seq![x] + s =~= seq![x] + (a + b));
    Seq::filter_distributes_over_add(a, seq![x] + b, f);
    Seq::filter_distributes_over_add(seq![x], b, f);
    Seq::filter_distributes_over_add(seq![x], a + b, f);
    Seq::filter_distributes_over_add(a, b, f);
    if f(x) {
        assert(a.filter(f) =~= Seq::<T>::empty()) by {
            if a.filter(f).len() > 0 {
                let y = a.filter(f)[0];
                a.lemma_filter_pred(f, 0);
                a.lemma_filter_contains_rev(f, y);
                let i = choose|i: int| 0 <= i < a.len() && a[i] == y;
                assert(path_less(key(s[i]), key(x)));
                path_order_total(key(s[i]), key(x));
                assert(same_path(key(y), key(x)));
            }
        }
    } else {
        assert(seq![x].filter(f) =~= Seq::<T>::empty()) by {
            if seq![x].filter(f).len() > 0 {
                seq![x].lemma_filter_pred(f, 0);
                let y = seq![x].filter(f)[0];
                seq![x].lemma_filter_contains_rev(f, y);
            }
        }
    }
    assert(standing_at(placed(s, x, key), key, p) =~= standing_at(seq![x] + s, key, p));
}

/// The order of paths is what sorting gives: the result is in order, and the
/// items at any one path are those of the input, in the order they had there.
pub proof fn sorting_is_stable<T>(s: Seq<T>, key: spec_fn(T) -> Seq<char>)
    ensures
        in_path_order(by_path(s, key), key),
        forall|p: Seq<char>| #[trigger]
            standing_at(by_path(s, key), key, p) == standing_at(s, key, p),
        by_path(s, key).len() == s.len(),
    decreases s.len(),
{
    if s.len() > 0 {
        let rest = by_path(s.skip(1), key);
        sorting_is_stable(s.skip(1), key);
        lemma_placed_order(rest, s[0], key);
        let pos = lemma_position(rest, s[0], key);
        assert forall|p: Seq<char>| #[trigger]
            standing_at(by_path(s, key), key, p) == standing_at(s, key, p) by {
            let f = |y: T| same_path(key(y), p);
            lemma_placed_stable(rest, s[0], key, p);
            Seq::filter_distributes_over_add(seq![s[0]], rest, f);
            Seq::filter_distributes_over_add(seq![s[0]], s.skip(1), f);
            assert(standing_at(rest, key, p) == standing_at(s.skip(1), key, p));
            assert(seq![s[0]] + s.skip(1) =~= s);
        }
    }
}

/// Sorting commutes with looking at each item through another that keeps its path.
pub proof fn lemma_by_path_map<T, U>(
    s: Seq<T>,
    key: spec_fn(T) -> Seq<char>,
    f: spec_fn(T) -> U,
    ukey: spec_fn(U) -> Seq<char>,
)
    requires
        forall|x: T| #[trigger] ukey(f(x)) == key(x),
    ensures
        by_path(s, key).map_values(f) == by_path(s.map_values(f), ukey),
    decreases s.len(),
{
    if s.len() > 0 {
        lemma_by_path_map(s.skip(1), key, f, ukey);
        assert(s.map_values(f).skip(1) =~= s.skip(1).map_values(f));
        lemma_placed_map(by_path(s.skip(1), key), s[0], key, f, ukey);
    } else {
        assert(by_path(s, key).map_values(f) =~= by_path(s.map_values(f), ukey));
    }
}

proof fn lemma_placed_map<T, U>(
    s: Seq<T>,
    x: T,
    key: spec_fn(T) -> Seq<char>,
    f: spec_fn(T) -> U,
    ukey: spec_fn(U) -> Seq<char>,
)
    requires
        forall|x: T| #[trigger] ukey(f(x)) == key(x),
    ensures
        placed(s, x, key).map_values(f) == placed(s.map_values(f), f(x), ukey),
    decreases s.len(),
{
    if s.len() > 0 {
        assert(ukey(s.map_values(f)[0]) == key(s[0]));
    }
    if s.len() > 0 && path_less(key(s[0]), key(x)) {
        lemma_placed_map(s.skip(1), x, key, f, ukey);
        assert(s.map_values(f).skip(1) =~= s.skip(1).map_values(f));
        assert(placed(s, x, key).map_values(f) =~= placed(s.map_values(f), f(x), ukey));
    } else {
        assert(placed(s, x, key).map_values(f) =~= placed(s.map_values(f), f(x), ukey));
    }
}

/// The items in the order of their paths.
pub fn sort_by_path<T: Pathed>(items: Vec<T>) -> (r: Vec<T>)
    ensures
        r@ == by_path(items@, |x: T| x.at()),
{
    let ghost key = |x: T| x.at();
    let ghost all = items@;
    let mut rest = items;
    let mut out: Vec<T> = Vec::new();
    assert(all.skip(all.len() as int) =~= Seq::<T>::empty());
    while rest.len() > 0
        invariant
            key == (|x: T| x.at()),
            rest@.len() <= all.len(),
            rest@ =~= all.take(rest@.len() as int),
            out@ =~= by_path(all.skip(rest@.len() as int), key),
        decreases rest@.len(),
    {
        let ghost n = rest@.len() as int;
        let x: T = rest.pop().unwrap();
        proof {
            sorting_is_stable(all.skip(n), key);
            assert(x == all[n - 1]);
            assert(all.skip(n - 1).skip(1) =~= all.skip(n));
            assert(all.skip(n - 1)[0] == x);
        }
        let mut lo: usize = 0;
        let mut hi: usize = out.len();
        while lo < hi
            invariant
                key == (|x: T| x.at()),
                lo <= hi <= out@.len(),
                in_path_order(out@, key),
                forall|i: int| 0 <= i < lo ==> path_less(key(#[trigger] out@[i]), key(x)),
                hi < out@.len() ==> !path_less(key(out@[hi as int]), key(x)),
            decreases hi - lo,
        {
            let mid: usize = lo + (hi - lo) / 2;
            if before(out[mid].path_text(), x.path_text()) {
                proof {
                    assert(path_less(key(out@[mid as int]), key(x)));
                    let pos = lemma_position(out@, x, key);
                    assert(mid < pos);
                }
                lo = mid + 1;
            } else {
                assert(!path_less(key(out@[mid as int]), key(x)));
                hi = mid;
            }
        }
        proof {
            lemma_placed_at(out@, x, key, lo as int);
        }
        out.insert(lo, x);
    }
    assert(all.skip(0) =~= all);
    out
}

/// The items without those at the same path as the one right before them.
pub open spec fn one_per_path<T>(s: Seq<T>, key: spec_fn(T) -> Seq<char>) -> Seq<T>
    decreases s.len(),
{
    if s.len() == 0 {
        s
    } else {
        let kept = one_per_path(s.drop_last(), key);
        if kept.len() > 0 && same_path(key(kept.last()), key(s.last())) {
            kept
        } else {
            kept.push(s.last())
        }
    }
}

/// The items without those at the same path as the one right before them.
pub fn dedup_by_path<T: Pathed>(items: Vec<T>) -> (r: Vec<T>)
    ensures
        r@ == one_per_path(items@, |x: T| x.at()),
{
    let ghost key = |x: T| x.at();
    let ghost all = items@;
    let mut out: Vec<T> = Vec::new();
    assert(all.take(0) =~= Seq::<T>::empty());
    for x in it: items
        invariant
            key == (|x: T| x.at()),
            it.seq() == all,
            out@ == one_per_path(all.take(it.index() as int), key),
    {
        let ghost n = it.index() as int;
        assert(all.take(n + 1).drop_last() =~= all.take(n));
        assert(all.take(n + 1).last() == x);
        if out.len() > 0 {
            assert(key(out@.last()) == out@[out@.len() - 1].at());
        }
        if out.len() == 0 || !same_as(out[out.len() - 1].path_text(), x.path_text()) {
            out.push(x);
        }
    }
    assert(all.take(all.len() as int) =~= all);
    out
}

/// Dropping the repeats commutes with looking at each item through another that
/// keeps its path.
pub proof fn lemma_one_per_path_map<T, U>(
    s: Seq<T>,
    key: spec_fn(T) -> Seq<char>,
    f: spec_fn(T) -> U,
    ukey: spec_fn(U) -> Seq<char>,
)
    requires
        forall|x: T| #[trigger] ukey(f(x)) == key(x),
    ensures
        one_per_path(s, key).map_values(f) == one_per_path(s.map_values(f), ukey),
    decreases s.len(),
{
    if s.len() > 0 {
        lemma_one_per_path_map(s.drop_last(), key, f, ukey);
        let kept = one_per_path(s.drop_last(), key);
        assert(s.map_values(f).drop_last() =~= s.drop_last().map_values(f));
        assert(ukey(f(s.last())) == key(s.last()));
        if kept.len() > 0 {
            assert(kept.map_values(f).last() == f(kept.last()));
            assert(ukey(f(kept.last())) == key(kept.last()));
        }
        assert(one_per_path(s, key).map_values(f) =~= one_per_path(s.map_values(f), ukey));
    } else {
        assert(one_per_path(s, key).map_values(f) =~= one_per_path(s.map_values(f), ukey));
    }
}

proof fn lemma_one_per_path_kept<T>(s: Seq<T>, key: spec_fn(T) -> Seq<char>)
    requires
        in_path_order(s, key),
    ensures
        s.len() > 0 ==> one_per_path(s, key).len() > 0 && same_path(
            key(one_per_path(s, key).last()),
            key(s.last()),
        ),
        forall|i: int| 0 <= i < one_per_path(s, key).len() ==> s.contains(#[trigger] one_per_path(s, key)[i]),
        forall|i: int, j: int|
            0 <= i < j < one_per_path(s, key).len() ==> path_less(
                key(#[trigger] one_per_path(s, key)[i]),
                key(#[trigger] one_per_path(s, key)[j]),
            ),
    decreases s.len(),
{
    if s.len() > 0 {
        let front = s.drop_last();
        lemma_one_per_path_kept(front, key);
        let kept = one_per_path(front, key);
        let r = one_per_path(s, key);
        assert forall|i: int| 0 <= i < r.len() implies s.contains(#[trigger] r[i]) by {
            if i < kept.len() {
                assert(front.contains(kept[i]));
                let k = choose|k: int| 0 <= k < front.len() && front[k] == kept[i];
                assert(s[k] == r[i]);
            } else {
                assert(s[s.len() - 1] == r[i]);
            }
        }
        if r.len() > kept.len() {
            assert forall|i: int, j: int| 0 <= i < j < r.len() implies path_less(
                key(#[trigger] r[i]),
                key(#[trigger] r[j]),
            ) by {
                if j < kept.len() {
                    assert(r[i] == kept[i] && r[j] == kept[j]);
                } else {
                    let last = kept.len() - 1;
                    assert(front.contains(kept[last]));
                    let k = choose|k: int| 0 <= k < front.len() && front[k] == kept[last];
                    assert(s[k] == kept[last]);
                    assert(!path_less(key(s[s.len() - 1]), key(s[k])));
                    path_order_total(key(kept[last]), key(s.last()));
                    if i < last {
                        assert(path_less(key(kept[i]), key(kept[last])));
                        path_order_transitive(key(kept[i]), key(kept[last]), key(s.last()));
                    }
                }
            }
        }
    }
}

/// After sorting and dropping repeats no path stands twice, each path comes
/// after those before it, and nothing is made up.
pub proof fn sorted_without_repeats<T>(s: Seq<T>, key: spec_fn(T) -> Seq<char>)
    ensures
        forall|i: int, j: int|
            0 <= i < j < one_per_path(by_path(s, key), key).len() ==> path_less(
                key(#[trigger] one_per_path(by_path(s, key), key)[i]),
                key(#[trigger] one_per_path(by_path(s, key), key)[j]),
            ),
        forall|i: int|
            0 <= i < one_per_path(by_path(s, key), key).len() ==> by_path(s, key).contains(
                #[trigger] one_per_path(by_path(s, key), key)[i],
            ),
        in_path_order(one_per_path(by_path(s, key), key), key),
{
    sorting_is_stable(s, key);
    lemma_one_per_path_kept(by_path(s, key), key);
    let once = one_per_path(by_path(s, key), key);
    assert forall|i: int, j: int| 0 <= i < j < once.len() implies !path_less(
        key(#[trigger] once[j]),
        key(#[trigger] once[i]),
    ) by {
        path_order_total(key(once[i]), key(once[j]));
    }
}

/// Sorting neither loses nor makes up an item.
pub proof fn sorting_keeps_items<T>(s: Seq<T>, key: spec_fn(T) -> Seq<char>, x: T)
    ensures
        by_path(s, key).contains(x) <==> s.contains(x),
{
    sorting_is_stable(s, key);
    let f = |y: T| same_path(key(y), key(x));
    let r = by_path(s, key);
    assert(standing_at(r, key, key(x)) == standing_at(s, key, key(x)));
    assert(r.filter(f) == s.filter(f));
    if r.contains(x) {
        let i = choose|i: int| 0 <= i < r.len() && r[i] == x;
        r.lemma_filter_contains(f, i);
        s.lemma_filter_contains_rev(f, x);
    }
    if s.contains(x) {
        let i = choose|i: int| 0 <= i < s.len() && s[i] == x;
        s.lemma_filter_contains(f, i);
        r.lemma_filter_contains_rev(f, x);
    }
}

/// Dropping repeats leaves every path standing.
pub proof fn repeats_keep_paths<T>(s: Seq<T>, key: spec_fn(T) -> Seq<char>, i: int)
    requires
        0 <= i < s.len(),
    ensures
        exists|j: int|
            0 <= j < one_per_path(s, key).len() && same_path(
                key(#[trigger] one_per_path(s, key)[j]),
                key(s[i]),
            ),
    decreases s.len(),
{
    let kept = one_per_path(s.drop_last(), key);
    let r = one_per_path(s, key);
    if i == s.len() - 1 {
        assert(same_path(key(r[r.len() - 1]), key(s[i])));
    } else {
        repeats_keep_paths(s.drop_last(), key, i);
        let j = choose|j: int| 0 <= j < kept.len() && same_path(key(#[trigger] kept[j]), key(s[i]));
        assert(r[j] == kept[j]);
    }
}

/// What a filter keeps first is the first that it keeps.
proof fn lemma_first_kept<T>(s: Seq<T>, f: spec_fn(T) -> bool) -> (k: int)
    requires
        s.filter(f).len() > 0,
    ensures
        0 <= k < s.len(),
        f(s[k]),
        forall|j: int| 0 <= j < k ==> !f(#[trigger] s[j]),
        s.filter(f)[0] == s[k],
    decreases s.len(),
{
    reveal(Seq::filter);
    let front = s.drop_last();
    if front.filter(f).len() > 0 {
        let k = lemma_first_kept(front, f);
        assert(front[k] == s[k]);
        assert forall|j: int| 0 <= j < k implies !f(#[trigger] s[j]) by {
            assert(front[j] == s[j]);
        }
        k
    } else {
        assert forall|j: int| 0 <= j < s.len() - 1 implies !f(#[trigger] s[j]) by {
            if f(s[j]) {
                assert(front[j] == s[j]);
                front.lemma_filter_contains(f, j);
            }
        }
        s.len() - 1
    }
}

/// Dropping repeats keeps the first item at each path.
proof fn lemma_first_stays<T>(s: Seq<T>, key: spec_fn(T) -> Seq<char>, k: int)
    requires
        0 <= k < s.len(),
        forall|j: int| 0 <= j < k ==> !same_path(key(#[trigger] s[j]), key(s[k])),
    ensures
        one_per_path(s, key).contains(s[k]),
    decreases s.len(),
{
    let front = s.drop_last();
    let kept = one_per_path(front, key);
    let r = one_per_path(s, key);
    if k == s.len() - 1 {
        if kept.len() > 0 && same_path(key(kept.last()), key(s.last())) {
            lemma_kept_from(front, key, kept.len() - 1);
            let j = choose|j: int| 0 <= j < front.len() && front[j] == kept.last();
            assert(s[j] == kept.last());
        }
        assert(r[r.len() - 1] == s[k]);
    } else {
        assert(front[k] == s[k]);
        assert forall|j: int| 0 <= j < k implies !same_path(
            key(#[trigger] front[j]),
            key(front[k]),
        ) by {
            assert(front[j] == s[j]);
        }
        lemma_first_stays(front, key, k);
        let j = kept.index_of(s[k]);
        assert(r[j] == kept[j]);
    }
}

/// Dropping repeats makes nothing up.
proof fn lemma_kept_from<T>(s: Seq<T>, key: spec_fn(T) -> Seq<char>, i: int)
    requires
        0 <= i < one_per_path(s, key).len(),
    ensures
        s.contains(one_per_path(s, key)[i]),
    decreases s.len(),
{
    if s.len() > 0 {
        let front = s.drop_last();
        let kept = one_per_path(front, key);
        if i < kept.len() {
            lemma_kept_from(front, key, i);
            let k = front.index_of(kept[i]);
            assert(s[k] == kept[i]);
        } else {
            assert(s[s.len() - 1] == one_per_path(s, key)[i]);
        }
    }
}

/// Of the items at one path, sorting and dropping repeats keeps the one that
/// came first.
pub proof fn the_first_at_a_path_stays<T>(s: Seq<T>, key: spec_fn(T) -> Seq<char>, i: int)
    requires
        0 <= i < s.len(),
        forall|j: int| 0 <= j < i ==> !same_path(key(#[trigger] s[j]), key(s[i])),
    ensures
        one_per_path(by_path(s, key), key).contains(s[i]),
{
    let p = key(s[i]);
    let f = |x: T| same_path(key(x), p);
    let r = by_path(s, key);
    sorting_is_stable(s, key);
    assert(standing_at(r, key, p) == standing_at(s, key, p));
    assert(r.filter(f) == s.filter(f));
    s.lemma_filter_contains(f, i);
    assert(s.filter(f).len() > 0);
    let k = lemma_first_kept(s, f);
    assert(k == i) by {
        if k < i {
            assert(f(s[k]));
        }
        if i < k {
            assert(f(s[i]));
        }
    }
    let m = lemma_first_kept(r, f);
    assert(r[m] == s[i]);
    assert forall|j: int| 0 <= j < m implies !same_path(key(#[trigger] r[j]), key(r[m])) by {
        assert(!f(r[j]));
    }
    lemma_first_stays(r, key, m);
}

/// Whether one of the paths is `p`.
pub open spec fn among(paths: Seq<String>, p: Seq<char>) -> bool {
    exists|i: int| 0 <= i < paths.len() && same_path((#[trigger] paths[i])@, p)
}

/// Whether one of the paths, which stand in order, is `p`.
pub fn is_among(paths: &Vec<String>, p: &str) -> (r: bool)
    requires
        in_path_order(paths@, |s: String| s.at()),
    ensures
        r == among(paths@, p@),
{
    let ghost key = |s: String| s.at();
    let mut lo: usize = 0;
    let mut hi: usize = paths.len();
    while lo < hi
        invariant
            key == (|s: String| s.at()),
            in_path_order(paths@, key),
            lo <= hi <= paths@.len(),
            forall|i: int| 0 <= i < lo ==> path_less((#[trigger] paths@[i])@, p@),
            forall|i: int| hi <= i < paths@.len() ==> !path_less((#[trigger] paths@[i])@, p@),
        decreases hi - lo,
    {
        let mid: usize = lo + (hi - lo) / 2;
        if before(paths[mid].as_str(), p) {
            assert forall|i: int| 0 <= i < mid + 1 implies path_less((#[trigger] paths@[i])@, p@) by {
                if i < mid {
                    lemma_below(paths@, i, mid as int, p@);
                }
            }
            lo = mid + 1;
        } else {
            assert forall|i: int| mid <= i < paths@.len() implies !path_less(
                (#[trigger] paths@[i])@,
                p@,
            ) by {
                if path_less(paths@[i]@, p@) && mid < i {
                    lemma_below(paths@, mid as int, i, p@);
                }
            }
            hi = mid;
        }
    }
    if lo < paths.len() && same_as(paths[lo].as_str(), p) {
        return true;
    }
    proof {
        assert forall|i: int| 0 <= i < paths@.len() implies !same_path((#[trigger] paths@[i])@, p@) by {
            path_order_total(paths@[i]@, p@);
            if i > lo && same_path(paths@[i]@, p@) {
                path_order_total(paths@[lo as int]@, p@);
                assert(path_less(p@, paths@[lo as int]@));
                assert(!path_less(key(paths@[i]), key(paths@[lo as int])));
                assert(path_less(paths@[i]@, paths@[lo as int]@));
            }
        }
    }
    false
}

/// What stands no later than something before `p` is before `p` too.
proof fn lemma_below(paths: Seq<String>, i: int, j: int, p: Seq<char>)
    requires
        in_path_order(paths, |s: String| s.at()),
        0 <= i < j < paths.len(),
        path_less(paths[j]@, p),
    ensures
        path_less(paths[i]@, p),
{
    let key = |s: String| s.at();
    let a = paths[i]@;
    let b = paths[j]@;
    assert(!path_less(key(paths[j]), key(paths[i])));
    path_order_total(a, b);
    if path_less(a, b) {
        path_order_transitive(a, b, p);
    }
}

} // verus!
