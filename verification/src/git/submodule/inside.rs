//! What is read of submodules.

use vstd::prelude::*;

use crate::bytes::lossy_text;
use crate::git::status::{at_most_one, nul_records};
use crate::git::status::records::{
    ended, entries_records, entry_records, lemma_entries, lemma_entry_fields, prints,
    records_read_back, Entry,
};
use crate::git::submodule::{
    all_inside, below, checkout_at, contents, expanded_views, flags_in, has_submodule, innermost,
    leading, listed, paths_to_read, Checkout,
};
use crate::model::StrayView;
use crate::paths::reading::is_name;
use crate::paths::{joined, part_text, same_path, Part};
use crate::seqs::{join_with, lemma_join_push};
use crate::sorting::{by_path, one_per_path, repeats_keep_paths, sorting_keeps_items};

verus! {

/// Whether a `<sub>` field says that something inside a submodule changed or is
/// new.
pub open spec fn has_news(kind: Seq<u8>) -> bool {
    kind.len() > 0 && kind[0] == 0x53 && ((kind.len() > 2 && kind[2] == 0x4d) || (kind.len() > 3
        && kind[3] == 0x55))
}

/// The submodule that an entry says is worth reading, if it says so of one.
pub open spec fn news_of(e: Entry) -> Option<Seq<char>> {
    match e {
        Entry::Ordinary { kind, path, .. } => if has_news(kind) {
            Some(lossy_text(path))
        } else {
            None
        },
        Entry::Renamed { kind, path, .. } => if has_news(kind) {
            Some(lossy_text(path))
        } else {
            None
        },
        Entry::Unmerged { kind, path, .. } => if has_news(kind) {
            Some(lossy_text(path))
        } else {
            None
        },
        _ => None,
    }
}

/// The submodules that entries say are worth reading, in their order.
pub open spec fn all_news(entries: Seq<Entry>) -> Seq<Seq<char>>
    decreases entries.len(),
{
    if entries.len() == 0 {
        Seq::empty()
    } else {
        at_most_one(news_of(entries[0])) + all_news(entries.skip(1))
    }
}

proof fn lemma_news(e: Entry, rest: Seq<Seq<u8>>)
    requires
        prints(e),
    ensures
        paths_to_read(entry_records(e) + rest) == at_most_one(news_of(e)) + paths_to_read(rest),
{
    let own = entry_records(e);
    let all = own + rest;
    assert(all[0] == own[0]);
    if let Entry::Renamed { .. } = e {
        assert(all.skip(1).skip(1) =~= rest);
    } else {
        assert(all.skip(1) =~= rest);
    }
    match e {
        Entry::Ordinary { index, worktree, kind, more, path } => {
            lemma_entry_fields(0x31, seq![index, worktree], kind, more, path, 8);
        },
        Entry::Renamed { index, worktree, kind, more, path, from } => {
            lemma_entry_fields(0x32, seq![index, worktree], kind, more, path, 9);
        },
        Entry::Unmerged { index, worktree, kind, more, path } => {
            lemma_entry_fields(0x75, seq![index, worktree], kind, more, path, 10);
        },
        Entry::Untracked { path } => {
            assert(own[0][0] == 0x3f);
        },
        Entry::Ignored { path } => {
            assert(own[0][0] == 0x21);
        },
        Entry::Header { text } => {
            assert(own[0][0] == 0x23);
        },
    }
    assert(paths_to_read(all) =~= at_most_one(news_of(e)) + paths_to_read(rest));
}

proof fn lemma_all_news(entries: Seq<Entry>)
    requires
        forall|i: int| 0 <= i < entries.len() ==> prints(#[trigger] entries[i]),
    ensures
        paths_to_read(entries_records(entries)) == all_news(entries),
    decreases entries.len(),
{
    if entries.len() > 0 {
        let rest = entries.skip(1);
        assert(prints(entries[0]));
        assert forall|i: int| 0 <= i < rest.len() implies prints(#[trigger] rest[i]) by {
            assert(prints(entries[i + 1]));
        }
        lemma_all_news(rest);
        lemma_news(entries[0], entries_records(rest));
    } else {
        assert(paths_to_read(entries_records(entries)) =~= all_news(entries));
    }
}

/// A submodule is read exactly where git says that something inside it changed or
/// is new; one whose recorded commit alone moved is not.
pub proof fn submodules_with_news_are_read(entries: Seq<Entry>)
    requires
        forall|i: int| 0 <= i < entries.len() ==> prints(#[trigger] entries[i]),
    ensures
        paths_to_read(nul_records(ended(entries_records(entries)))) == all_news(
            entries,
        ),
{
    lemma_entries(entries);
    records_read_back(entries_records(entries));
    lemma_all_news(entries);
}

/// The letters of a `<sub>` field each say their own thing, in their own place.
pub proof fn the_letters_say_what_happened(kind: Seq<u8>)
    ensures
        flags_in(kind) is Some <==> kind.len() > 0 && kind[0] == 0x53,
        flags_in(kind) matches Some(f) ==> {
            &&& f.commit_changed <==> kind.len() > 1 && kind[1] == 0x43
            &&& f.modified <==> kind.len() > 2 && kind[2] == 0x4d
            &&& f.untracked <==> kind.len() > 3 && kind[3] == 0x55
        },
{
}

/// What is inside a submodule is listed below its path, everything of it and as
/// it is.
pub proof fn what_is_inside_is_listed_below(
    list: Seq<StrayView>,
    inside: Seq<(String, Checkout)>,
    i: int,
    k: int,
)
    requires
        0 <= i < list.len(),
        list[i].status is Submodule,
        checkout_at(inside, list[i].path) matches Some(c) && 0 <= k < contents(c, 3).len(),
    ensures
        all_inside(list, inside).contains(
            StrayView {
                status: contents(checkout_at(inside, list[i].path)->0, 3)[k].status,
                path: joined(
                    list[i].path,
                    contents(checkout_at(inside, list[i].path)->0, 3)[k].path,
                ),
            },
        ),
    decreases list.len(),
{
    let c = checkout_at(inside, list[i].path)->0;
    let all = all_inside(list, inside);
    let before = all_inside(list.drop_last(), inside);
    let s = contents(c, 3)[k];
    let item = StrayView { status: s.status, path: joined(list[i].path, s.path) };
    if i < list.len() - 1 {
        assert(list.drop_last()[i] == list[i]);
        what_is_inside_is_listed_below(list.drop_last(), inside, i, k);
        let m = before.index_of(item);
        assert(all[m] == item);
    } else {
        let more = below(list[i].path, contents(c, 3));
        assert(all == before + more);
        assert(more[k] == item);
        assert(all[before.len() + k] == item);
    }
}

/// Every file that a submodule's own list has is inside it, and so is, below its
/// path, what is inside a submodule in it.
pub proof fn a_list_is_inside_with_what_is_below(
    list: Seq<StrayView>,
    inside: Seq<(String, Checkout)>,
    depth: nat,
    i: int,
    k: int,
)
    requires
        depth > 0,
        0 <= i < list.len(),
    ensures
        listed(list, inside, depth).contains(list[i]),
        list[i].status is Submodule && (checkout_at(inside, list[i].path) matches Some(c) && 0 <= k
            < contents(c, (depth - 1) as nat).len()) ==> listed(list, inside, depth).contains(
            StrayView {
                status: contents(
                    checkout_at(inside, list[i].path)->0,
                    (depth - 1) as nat,
                )[k].status,
                path: joined(
                    list[i].path,
                    contents(checkout_at(inside, list[i].path)->0, (depth - 1) as nat)[k].path,
                ),
            },
        ),
    decreases list.len(),
{
    let all = listed(list, inside, depth);
    let front = list.drop_last();
    let before = listed(front, inside, depth);
    let s = list.last();
    let within = if s.status is Submodule {
        match checkout_at(inside, s.path) {
            Some(c) => below(s.path, contents(c, (depth - 1) as nat)),
            None => Seq::empty(),
        }
    } else {
        Seq::empty()
    };
    assert(all == before + within + seq![s]);
    let c = checkout_at(inside, list[i].path)->0;
    let nested = contents(c, (depth - 1) as nat);
    let item = StrayView { status: nested[k].status, path: joined(list[i].path, nested[k].path) };
    if i < list.len() - 1 {
        assert(front[i] == list[i]);
        a_list_is_inside_with_what_is_below(front, inside, depth, i, k);
        let m = before.index_of(list[i]);
        assert(all[m] == list[i]);
        if list[i].status is Submodule && checkout_at(inside, list[i].path) is Some && 0 <= k
            < nested.len() {
            let n = before.index_of(item);
            assert(all[n] == item);
        }
    } else {
        assert(all[all.len() - 1] == s);
        if list[i].status is Submodule && checkout_at(inside, list[i].path) is Some && 0 <= k
            < nested.len() {
            assert(within[k] == item);
            assert(all[before.len() + k] == item);
        }
    }
}

/// The repository that a file belongs to is the innermost of those that it lies in.
pub proof fn the_innermost_repository_owns(is_repo: Seq<bool>)
    ensures
        match innermost(is_repo) {
            Some(k) => 0 <= k < is_repo.len() && is_repo[k] && forall|j: int|
                k < j < is_repo.len() ==> !is_repo[j],
            None => forall|j: int| 0 <= j < is_repo.len() ==> !is_repo[j],
        },
    decreases is_repo.len(),
{
    if is_repo.len() > 0 && !is_repo.last() {
        let front = is_repo.drop_last();
        the_innermost_repository_owns(front);
        assert forall|j: int| 0 <= j < front.len() implies front[j] == is_repo[j] by {}
    }
}

/// The first parts of a path are its first names with separators between them, and
/// the others are the names behind.
pub proof fn a_path_is_cut_between_its_names(names: Seq<Seq<char>>, n: nat)
    requires
        n <= names.len(),
        forall|i: int| 0 <= i < names.len() ==> is_name(#[trigger] names[i]),
    ensures
        leading(names.map_values(|s: Seq<char>| Part::Name(s)), n) == join_with(
            names.take(n as int),
            seq!['/'],
        ),
    decreases n,
{
    let ps = names.map_values(|s: Seq<char>| Part::Name(s));
    if n == 0 {
        assert(names.take(0) =~= Seq::<Seq<char>>::empty());
    } else {
        let m = (n - 1) as nat;
        a_path_is_cut_between_its_names(names, m);
        let front = names.take(m as int);
        let name = names[m as int];
        assert(names.take(n as int) =~= front.push(name));
        lemma_join_push(front, name, seq!['/']);
        assert(is_name(name));
        assert(name[0] != '/') by {
            assert(name.contains(name[0]));
        }
        assert(part_text(ps[m as int]) == name);
        let base = join_with(front, seq!['/']);
        if m > 0 {
            lemma_joined_end(front);
        } else {
            assert(front =~= Seq::<Seq<char>>::empty());
            assert(base + name =~= name);
        }
    }
}

proof fn lemma_joined_end(names: Seq<Seq<char>>)
    requires
        names.len() > 0,
        forall|i: int| 0 <= i < names.len() ==> is_name(#[trigger] names[i]),
    ensures
        join_with(names, seq!['/']).len() > 0,
        join_with(names, seq!['/']).last() != '/',
{
    let front = names.drop_last();
    let last = names.last();
    assert(names =~= front.push(last));
    lemma_join_push(front, last, seq!['/']);
    assert(is_name(names[names.len() - 1]));
    assert(last.contains(last[last.len() - 1]));
}

/// What is inside the submodules of a list is folded into it: every path of it is
/// listed.
pub proof fn what_is_inside_is_folded_in(
    list: Seq<StrayView>,
    inside: Seq<(String, Checkout)>,
    s: StrayView,
)
    requires
        all_inside(list, inside).contains(s),
    ensures
        exists|j: int|
            0 <= j < expanded_views(list, inside).len() && same_path(
                (#[trigger] expanded_views(list, inside)[j]).path,
                s.path,
            ),
{
    let key = |x: StrayView| x.path;
    lemma_some_submodule(list, inside);
    let more = all_inside(list, inside);
    let all = list + more;
    let k = more.index_of(s);
    assert(all[list.len() + k] == s);
    sorting_keeps_items(all, key, s);
    let sorted = by_path(all, key);
    let i = choose|i: int| 0 <= i < sorted.len() && sorted[i] == s;
    repeats_keep_paths(sorted, key, i);
    let j = choose|j: int|
        0 <= j < one_per_path(sorted, key).len() && same_path(
            key(#[trigger] one_per_path(sorted, key)[j]),
            key(sorted[i]),
        );
    assert(same_path(expanded_views(list, inside)[j].path, s.path));
}

proof fn lemma_some_submodule(list: Seq<StrayView>, inside: Seq<(String, Checkout)>)
    ensures
        all_inside(list, inside).len() > 0 ==> has_submodule(list),
    decreases list.len(),
{
    if list.len() > 0 {
        let front = list.drop_last();
        lemma_some_submodule(front, inside);
        if has_submodule(front) {
            let i = choose|i: int| 0 <= i < front.len() && (#[trigger] front[i]).status is Submodule;
            assert(list[i].status is Submodule);
        }
        if list.last().status is Submodule {
            assert(list[list.len() - 1].status is Submodule);
        }
    }
}

} // verus!
