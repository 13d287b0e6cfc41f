//! What a query finds.

use vstd::prelude::*;

use crate::filter::{
    hits, is_match, is_sensitive, lemma_hits, lemma_letter_from, letter_from, same_letter,
    score_of, stands_in,
};
use crate::text::{ascii_lower, lowercase_of, uppercase};

verus! {

/// Whether places of a text hold the characters of a query, one behind another.
pub open spec fn spells(query: Seq<char>, text: Seq<char>, at: Seq<int>) -> bool {
    &&& at.len() == query.len()
    &&& forall|k: int|
        0 <= k < at.len() ==> 0 <= #[trigger] at[k] < text.len() && same_letter(
            is_sensitive(query),
            text[at[k]],
            query[k],
        )
    &&& forall|j: int, k: int| 0 <= j < k < at.len() ==> at[j] < at[k]
}

/// Whether each of the places is the first that could be taken behind the one
/// before it.
pub open spec fn earliest(query: Seq<char>, text: Seq<char>, at: Seq<int>) -> bool {
    forall|k: int, j: int|
        0 <= k < at.len() && (if k == 0 {
            0
        } else {
            at[k - 1] + 1
        }) <= j < #[trigger] at[k] ==> !same_letter(
            is_sensitive(query),
            #[trigger] text[j],
            query[k],
        )
}

proof fn lemma_places(query: Seq<char>, text: Seq<char>, sensitive: bool, from: int)
    requires
        0 <= from <= text.len(),
        hits(query, text, sensitive, from) is Some,
    ensures
        ({
            let at = hits(query, text, sensitive, from)->0;
            &&& at.len() == query.len()
            &&& forall|k: int|
                0 <= k < at.len() ==> from <= #[trigger] at[k] < text.len() && same_letter(
                    sensitive,
                    text[at[k]],
                    query[k],
                )
            &&& forall|j: int, k: int| 0 <= j < k < at.len() ==> at[j] < at[k]
            &&& forall|k: int, j: int|
                0 <= k < at.len() && (if k == 0 {
                    from
                } else {
                    at[k - 1] + 1
                }) <= j < #[trigger] at[k] ==> !same_letter(sensitive, #[trigger] text[j], query[k])
        }),
    decreases query.len(),
{
    if query.len() > 0 {
        lemma_hits(query, text, sensitive, from);
        lemma_letter_from(text, query[0], sensitive, from);
        let p = letter_from(text, query[0], sensitive, from)->0;
        let rest = query.skip(1);
        lemma_places(rest, text, sensitive, p + 1);
        let tail = hits(rest, text, sensitive, p + 1)->0;
        let at = hits(query, text, sensitive, from)->0;
        assert(at == seq![p] + tail);
        assert forall|k: int| 0 <= k < at.len() implies from <= #[trigger] at[k] < text.len()
            && same_letter(sensitive, text[at[k]], query[k]) by {
            if k > 0 {
                assert(at[k] == tail[k - 1]);
                assert(query[k] == rest[k - 1]);
            }
        }
        assert forall|k: int, j: int|
            0 <= k < at.len() && (if k == 0 {
                from
            } else {
                at[k - 1] + 1
            }) <= j < #[trigger] at[k] implies !same_letter(
            sensitive,
            #[trigger] text[j],
            query[k],
        ) by {
            if k > 0 {
                assert(at[k] == tail[k - 1]);
                assert(query[k] == rest[k - 1]);
                if k > 1 {
                    assert(at[k - 1] == tail[k - 2]);
                }
            }
        }
    }
}

proof fn lemma_spelled(query: Seq<char>, text: Seq<char>, sensitive: bool, at: Seq<int>, from: int)
    requires
        0 <= from <= text.len(),
        at.len() == query.len(),
        forall|k: int|
            0 <= k < at.len() ==> from <= #[trigger] at[k] < text.len() && same_letter(
                sensitive,
                text[at[k]],
                query[k],
            ),
        forall|j: int, k: int| 0 <= j < k < at.len() ==> at[j] < at[k],
    ensures
        stands_in(query, text.skip(from), sensitive),
    decreases text.len() - from,
{
    if query.len() > 0 {
        assert(from <= at[0]);
        let rest = text.skip(from);
        assert(rest[0] == text[from]);
        assert(rest.skip(1) =~= text.skip(from + 1));
        if at[0] == from {
            let tail = at.skip(1);
            assert forall|k: int| 0 <= k < tail.len() implies from + 1 <= #[trigger] tail[k]
                < text.len() && same_letter(sensitive, text[tail[k]], query.skip(1)[k]) by {
                assert(tail[k] == at[k + 1]);
                assert(at[0] < at[k + 1]);
                assert(same_letter(sensitive, text[at[k + 1]], query[k + 1]));
            }
            assert forall|j: int, k: int| 0 <= j < k < tail.len() implies tail[j] < tail[k] by {
                assert(at[j + 1] < at[k + 1]);
            }
            lemma_spelled(query.skip(1), text, sensitive, tail, from + 1);
        } else {
            assert forall|k: int| 0 <= k < at.len() implies from + 1 <= #[trigger] at[k]
                < text.len() && same_letter(sensitive, text[at[k]], query[k]) by {
                if k > 0 {
                    assert(at[0] < at[k]);
                }
            }
            lemma_spelled(query, text, sensitive, at, from + 1);
        }
    }
}

/// A query finds a text exactly where its characters stand in it one behind
/// another, with others between them or not.
pub proof fn a_query_finds_what_spells_it(query: Seq<char>, text: Seq<char>)
    ensures
        is_match(query, text) <==> exists|at: Seq<int>| #[trigger] spells(query, text, at),
{
    assert(text.skip(0) =~= text);
    lemma_hits(query, text, is_sensitive(query), 0);
    if is_match(query, text) {
        lemma_places(query, text, is_sensitive(query), 0);
        assert(spells(query, text, hits(query, text, is_sensitive(query), 0)->0));
    }
    if exists|at: Seq<int>| #[trigger] spells(query, text, at) {
        let at = choose|at: Seq<int>| #[trigger] spells(query, text, at);
        lemma_spelled(query, text, is_sensitive(query), at, 0);
    }
}

/// The score of a match is how far its characters lie apart and how far the first
/// lies from the end, each taken as early as it stands: the closer together and
/// the further back, the lower.
pub proof fn the_score_is_how_far_apart(query: Seq<char>, text: Seq<char>)
    requires
        is_match(query, text),
        query.len() > 0,
    ensures
        exists|at: Seq<int>| #[trigger]
            spells(query, text, at) && earliest(query, text, at) && score_of(query, text) == Some(
                at.last() - at[0] + (text.len() - at[0]),
            ),
{
    assert(text.skip(0) =~= text);
    lemma_hits(query, text, is_sensitive(query), 0);
    lemma_places(query, text, is_sensitive(query), 0);
    let at = hits(query, text, is_sensitive(query), 0)->0;
    assert(spells(query, text, at));
}

/// A query without capitals does not ask for them: its letters stand for capitals
/// too. One capital in it, and every letter stands for itself alone.
pub proof fn capitals_matter_where_they_are_used(query: Seq<char>, c: char, d: char)
    ensures
        (forall|i: int| 0 <= i < query.len() ==> !uppercase(#[trigger] query[i])) ==> (same_letter(
            is_sensitive(query),
            c,
            d,
        ) <==> ascii_lower(c) == ascii_lower(d) || lowercase_of(c) == lowercase_of(d)),
        (exists|i: int| 0 <= i < query.len() && uppercase(#[trigger] query[i])) ==> (same_letter(
            is_sensitive(query),
            c,
            d,
        ) <==> c == d),
{
}

} // verus!
