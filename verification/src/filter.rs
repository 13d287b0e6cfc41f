//! Narrowing the list to the files a query names.
//!
//! In the show-all view a repository contributes every tracked file, and the
//! only way through is one row at a time. A query typed at the `/` line cuts
//! that to the handful being looked for.
//!
//! # Matching
//!
//! Subsequence, not substring: `amd` finds `src/app/mod.rs`, the way every
//! fuzzy finder behaves and the reason typing three characters is enough.
//! Matching is case-insensitive until the query contains an upper-case
//! character, at which point it becomes case-sensitive — the same rule vim and
//! ripgrep use, and it lets `Row` mean something different from `row` without
//! a flag.

use vstd::prelude::*;
use vstd::string::*;

use crate::text::{
    ascii_lower, chars_of, lower_case, lowercase_of, to_ascii_lower, uppercase,
};

pub mod finding;

verus! {

/// Whether a query has an upper-case character: the user meant it.
pub open spec fn is_sensitive(query: Seq<char>) -> bool {
    exists|i: int| 0 <= i < query.len() && uppercase(#[trigger] query[i])
}

/// Whether two characters are the same, in capitals or not unless it matters.
pub open spec fn same_letter(sensitive: bool, a: char, b: char) -> bool {
    if sensitive {
        a == b
    } else {
        ascii_lower(a) == ascii_lower(b) || lowercase_of(a) == lowercase_of(b)
    }
}

/// Whether the characters of a query stand in a text in their order, with
/// others between them or not.
pub open spec fn stands_in(query: Seq<char>, text: Seq<char>, sensitive: bool) -> bool
    decreases text.len(),
{
    if query.len() == 0 {
        true
    } else if text.len() == 0 {
        false
    } else {
        (same_letter(sensitive, text[0], query[0]) && stands_in(
            query.skip(1),
            text.skip(1),
            sensitive,
        )) || stands_in(query, text.skip(1), sensitive)
    }
}

/// Whether a query matches a text.
pub open spec fn is_match(query: Seq<char>, text: Seq<char>) -> bool {
    stands_in(query, text, is_sensitive(query))
}

/// The first position at or after `at` that holds a character.
pub open spec fn letter_from(text: Seq<char>, c: char, sensitive: bool, at: int) -> Option<int>
    decreases text.len() - at,
{
    if at < 0 || at >= text.len() {
        None
    } else if same_letter(sensitive, text[at], c) {
        Some(at)
    } else {
        letter_from(text, c, sensitive, at + 1)
    }
}

/// The positions at which the characters of a query are found, each as early as
/// it can be after the one before.
pub open spec fn hits(query: Seq<char>, text: Seq<char>, sensitive: bool, at: int) -> Option<Seq<int>>
    decreases query.len(),
{
    if query.len() == 0 {
        Some(Seq::empty())
    } else {
        match letter_from(text, query[0], sensitive, at) {
            Some(p) => match hits(query.skip(1), text, sensitive, p + 1) {
                Some(rest) => Some(seq![p] + rest),
                None => None,
            },
            None => None,
        }
    }
}

/// How well a query matches a text: how far apart the first and the last of its
/// characters are found, and how far from the end the first is.
pub open spec fn score_of(query: Seq<char>, text: Seq<char>) -> Option<int> {
    if query.len() == 0 {
        Some(0)
    } else {
        match hits(query, text, is_sensitive(query), 0) {
            Some(found) => Some((found.last() - found[0]) + (text.len() - found[0])),
            None => None,
        }
    }
}

proof fn lemma_letter_from(text: Seq<char>, c: char, sensitive: bool, at: int)
    requires
        0 <= at,
    ensures
        match letter_from(text, c, sensitive, at) {
            Some(p) => at <= p < text.len() && same_letter(sensitive, text[p], c) && forall|j: int|
                at <= j < p ==> !same_letter(sensitive, #[trigger] text[j], c),
            None => forall|j: int|
                at <= j < text.len() ==> !same_letter(sensitive, #[trigger] text[j], c),
        },
    decreases text.len() - at,
{
    if at < text.len() && !same_letter(sensitive, text[at], c) {
        lemma_letter_from(text, c, sensitive, at + 1);
    }
}

proof fn lemma_stands_later(query: Seq<char>, text: Seq<char>, sensitive: bool)
    requires
        query.len() > 0,
        stands_in(query, text, sensitive),
    ensures
        stands_in(query.skip(1), text, sensitive),
        text.len() > 0,
        stands_in(query.skip(1), text.skip(1), sensitive),
    decreases text.len(),
{
    if stands_in(query, text.skip(1), sensitive) {
        lemma_stands_later(query, text.skip(1), sensitive);
    }
    if query.skip(1).len() > 0 {
        assert(stands_in(query.skip(1), text, sensitive));
    }
}

/// Passing over characters that are not the first one wanted loses nothing.
proof fn lemma_stands_from(query: Seq<char>, text: Seq<char>, sensitive: bool, at: int, p: int)
    requires
        query.len() > 0,
        0 <= at <= p <= text.len(),
        forall|j: int| at <= j < p ==> !same_letter(sensitive, #[trigger] text[j], query[0]),
    ensures
        stands_in(query, text.skip(at), sensitive) == stands_in(query, text.skip(p), sensitive),
    decreases p - at,
{
    if at < p {
        assert(text.skip(at).skip(1) =~= text.skip(at + 1));
        assert(text.skip(at)[0] == text[at]);
        lemma_stands_from(query, text, sensitive, at + 1, p);
    }
}

/// A query that is found scores, and one that scores is found: no row is shown
/// that cannot be ordered, and none is ordered that is not shown.
pub proof fn matching_and_scoring_agree(query: Seq<char>, text: Seq<char>)
    ensures
        is_match(query, text) <==> score_of(query, text) is Some,
{
    assert(text.skip(0) =~= text);
    lemma_hits(query, text, is_sensitive(query), 0);
}

proof fn lemma_hits(query: Seq<char>, text: Seq<char>, sensitive: bool, at: int)
    requires
        0 <= at <= text.len(),
    ensures
        hits(query, text, sensitive, at) is Some <==> stands_in(query, text.skip(at), sensitive),
        hits(query, text, sensitive, at) matches Some(found) ==> {
            &&& found.len() == query.len()
            &&& forall|k: int| 0 <= k < found.len() ==> at <= #[trigger] found[k] < text.len()
            &&& forall|j: int, k: int| 0 <= j < k < found.len() ==> found[j] < found[k]
        },
    decreases query.len(),
{
    if query.len() > 0 {
        lemma_letter_from(text, query[0], sensitive, at);
        match letter_from(text, query[0], sensitive, at) {
            Some(p) => {
                lemma_stands_from(query, text, sensitive, at, p);
                lemma_hits(query.skip(1), text, sensitive, p + 1);
                assert(text.skip(p).skip(1) =~= text.skip(p + 1));
                assert(text.skip(p)[0] == text[p]);
                if stands_in(query, text.skip(p), sensitive) {
                    lemma_stands_later(query, text.skip(p), sensitive);
                }
                match hits(query.skip(1), text, sensitive, p + 1) {
                    Some(rest) => {
                        let found = seq![p] + rest;
                        assert forall|j: int, k: int| 0 <= j < k < found.len() implies found[j]
                            < found[k] by {
                            assert(found[k] == rest[k - 1]);
                            if j > 0 {
                                assert(found[j] == rest[j - 1]);
                            }
                        }
                    },
                    None => {},
                }
            },
            None => {
                lemma_stands_from(query, text, sensitive, at, text.len() as int);
                assert(text.skip(text.len() as int) =~= Seq::<char>::empty());
            },
        }
    }
}

/// Whether a query asks for its case to be heeded.
pub(crate) fn sensitive_to_case(query: &Vec<char>) -> (r: bool)
    ensures
        r == is_sensitive(query@),
{
    for i in 0..query.len()
        invariant
            forall|j: int| 0 <= j < i ==> !uppercase(#[trigger] query@[j]),
    {
        if query[i].is_uppercase() {
            return true;
        }
    }
    false
}

/// Whether two characters are the same, given whether capitals matter.
pub fn letters_match(sensitive: bool, a: char, b: char) -> (r: bool)
    ensures
        r == same_letter(sensitive, a, b),
{
    if sensitive {
        a == b
    } else if to_ascii_lower(a) == to_ascii_lower(b) {
        true
    } else {
        let x = lower_case(a);
        let y = lower_case(b);
        x == y
    }
}

fn find_letter(text: &Vec<char>, c: char, sensitive: bool, at: usize) -> (r: Option<usize>)
    requires
        at <= text@.len(),
    ensures
        match r {
            Some(p) => letter_from(text@, c, sensitive, at as int) == Some(p as int) && at <= p
                < text.len(),
            None => letter_from(text@, c, sensitive, at as int) is None,
        },
{
    let mut i: usize = at;
    while i < text.len()
        invariant
            at <= i <= text@.len(),
            letter_from(text@, c, sensitive, at as int) == letter_from(
                text@,
                c,
                sensitive,
                i as int,
            ),
        decreases text@.len() - i,
    {
        if letters_match(sensitive, text[i], c) {
            return Some(i);
        }
        i += 1;
    }
    None
}

/// Where the first and the last character of a query are found.
fn find_ends(query: &Vec<char>, text: &Vec<char>, sensitive: bool) -> (r: Option<(usize, usize)>)
    requires
        query@.len() > 0,
    ensures
        match hits(query@, text@, sensitive, 0) {
            Some(found) => r matches Some((a, b)) && a == found[0] && b == found.last() && a <= b
                < text@.len(),
            None => r is None,
        },
{
    let ghost all = hits(query@, text@, sensitive, 0);
    let mut first: usize = 0;
    let mut last: usize = 0;
    let mut at: usize = 0;
    assert(query@.skip(0) =~= query@);
    proof {
        lemma_hits(query@, text@, sensitive, 0);
    }
    for i in 0..query.len()
        invariant
            all == hits(query@, text@, sensitive, 0),
            at <= text@.len(),
            all is Some <==> hits(query@.skip(i as int), text@, sensitive, at as int) is Some,
            i == 0 ==> at == 0,
            all matches Some(found) ==> {
                &&& found.len() == query@.len()
                &&& found.skip(i as int) =~= hits(
                    query@.skip(i as int),
                    text@,
                    sensitive,
                    at as int,
                )->0
                &&& i > 0 ==> first == found[0] && last == found[i - 1]
            },
            i > 0 ==> first <= last < at,
    {
        let ghost rest = query@.skip(i as int);
        assert(rest[0] == query@[i as int]);
        assert(rest.skip(1) =~= query@.skip(i + 1));
        match find_letter(text, query[i], sensitive, at) {
            None => {
                return None;
            },
            Some(p) => {
                proof {
                    match all {
                        Some(found) => {
                            let tail = hits(rest.skip(1), text@, sensitive, p + 1)->0;
                            assert(found.skip(i as int)[0] == p);
                            assert(found.skip(i + 1) =~= found.skip(i as int).skip(1));
                            assert(found.skip(i + 1) =~= tail);
                            assert(found[i as int] == p);
                        },
                        None => {},
                    }
                }
                if i == 0 {
                    first = p;
                }
                last = p;
                at = p + 1;
            },
        }
    }
    assert(query@.skip(query@.len() as int) =~= Seq::<char>::empty());
    Some((first, last))
}

/// Whether `query` matches `text` as a subsequence.
///
/// An empty query matches everything, so an empty filter line shows the whole
/// list rather than nothing.
pub fn matches(query: &str, text: &str) -> (r: bool)
    ensures
        r == is_match(query@, text@),
{
    let q = chars_of(query);
    let t = chars_of(text);
    if q.len() == 0 {
        return true;
    }
    let sensitive = sensitive_to_case(&q);
    proof {
        assert(t@.skip(0) =~= t@);
        lemma_hits(q@, t@, sensitive, 0);
    }
    find_ends(&q, &t, sensitive).is_some()
}

/// How well `query` matches `text`, for ordering. Lower is better.
///
/// Two things are rewarded: a match packed close together, and one starting
/// near the end of the path. The second matters because a query is usually
/// about a filename, and `mod.rs` should beat a directory three levels up that
/// happens to contain the same letters.
///
/// `None` when the query does not match at all. A score beyond what a `usize`
/// holds is the largest one.
pub fn score(query: &str, text: &str) -> (r: Option<usize>)
    ensures
        match score_of(query@, text@) {
            Some(s) => r matches Some(n) && n == if s <= usize::MAX {
                s
            } else {
                usize::MAX as int
            },
            None => r is None,
        },
{
    let q = chars_of(query);
    let t = chars_of(text);
    if q.len() == 0 {
        return Some(0);
    }
    let sensitive = sensitive_to_case(&q);
    match find_ends(&q, &t, sensitive) {
        Some((first, last)) => Some((last - first).saturating_add(t.len() - first)),
        None => None,
    }
}

} // verus!
