//! What git's listings say, record by record.

use vstd::prelude::*;
use vstd::string::*;

use crate::bytes::lossy_text;
use crate::git::status::{
    at_most_one, field_of, from_field, full_records, name_entries, nul_records, record_texts,
    status_entries, upstream_in,
};
use crate::model::{StatusView, StrayView, Upstream};
use crate::seqs::{lemma_index_is, split_on};
use crate::text::reading::words_end_at_white_space;
use crate::text::{decimal_of, decimal_reads_back, is_digit, is_space, lemma_decimal, words_of};

verus! {

/// Records as they are printed: one after another, each ended by a NUL.
pub open spec fn ended(records: Seq<Seq<u8>>) -> Seq<u8>
    decreases records.len(),
{
    if records.len() == 0 {
        Seq::empty()
    } else {
        records[0].push(0u8) + ended(records.skip(1))
    }
}

/// Records that were printed are read back: all of them, in their order.
pub proof fn records_read_back(records: Seq<Seq<u8>>)
    requires
        forall|i: int| 0 <= i < records.len() ==> !(#[trigger] records[i]).contains(0u8),
    ensures
        nul_records(ended(records)) == records,
    decreases records.len(),
{
    let buf = ended(records);
    if records.len() > 0 {
        let first = records[0];
        let rest = records.skip(1);
        assert forall|i: int| 0 <= i < rest.len() implies !(#[trigger] rest[i]).contains(0u8) by {
            assert(!records[i + 1].contains(0u8));
        }
        records_read_back(rest);
        assert forall|j: int| 0 <= j < first.len() implies buf[j] != 0u8 by {
            assert(buf[j] == first[j]);
        }
        lemma_index_is(buf, 0u8, first.len() as int);
        assert(buf.take(first.len() as int) =~= first);
        assert(buf.skip(first.len() as int + 1) =~= ended(rest));
        assert(nul_records(buf) =~= records);
    } else {
        assert(nul_records(buf) =~= records);
    }
}

proof fn lemma_full(records: Seq<Seq<u8>>)
    requires
        forall|i: int|
            0 <= i < records.len() ==> !(#[trigger] records[i]).contains(0u8) && records[i].len()
                > 0,
    ensures
        full_records(ended(records)) == records,
{
    records_read_back(records);
    let p = |r: Seq<u8>| r.len() > 0;
    lemma_filter_all(records, p);
}

proof fn lemma_filter_all(records: Seq<Seq<u8>>, p: spec_fn(Seq<u8>) -> bool)
    requires
        forall|i: int| 0 <= i < records.len() ==> p(#[trigger] records[i]),
    ensures
        records.filter(p) == records,
    decreases records.len(),
{
    reveal(Seq::filter);
    if records.len() > 0 {
        let front = records.drop_last();
        assert forall|i: int| 0 <= i < front.len() implies p(#[trigger] front[i]) by {
            assert(p(records[i]));
        }
        lemma_filter_all(front, p);
        assert(p(records[records.len() - 1]));
        assert(records.filter(p) =~= records);
    } else {
        assert(records.filter(p) =~= records);
    }
}

/// Every path that `ls-files -z` prints is listed, in the order it was printed.
pub proof fn printed_paths_are_listed(paths: Seq<Seq<u8>>)
    requires
        forall|i: int|
            0 <= i < paths.len() ==> !(#[trigger] paths[i]).contains(0u8) && paths[i].len() > 0,
    ensures
        record_texts(ended(paths)) == paths.map_values(|p: Seq<u8>| lossy_text(p)),
{
    lemma_full(paths);
}

/// A change that `diff --name-status -z` prints.
pub ghost enum Change {
    Added { path: Seq<u8> },
    Deleted { path: Seq<u8> },
    /// With how alike the two are.
    Renamed { score: Seq<u8>, from: Seq<u8>, path: Seq<u8> },
    /// With how alike the two are.
    Copied { score: Seq<u8>, from: Seq<u8>, path: Seq<u8> },
    /// Any other change, with its letters.
    Other { letters: Seq<u8>, path: Seq<u8> },
}

/// The fields that a change is printed as.
pub open spec fn change_fields(c: Change) -> Seq<Seq<u8>> {
    match c {
        Change::Added { path } => seq![seq![0x41u8], path],
        Change::Deleted { path } => seq![seq![0x44u8], path],
        Change::Renamed { score, from, path } => seq![seq![0x52u8] + score, from, path],
        Change::Copied { score, from, path } => seq![seq![0x43u8] + score, from, path],
        Change::Other { letters, path } => seq![letters, path],
    }
}

/// Whether a change is one that git prints: nothing is empty and nothing holds a
/// NUL, and other letters than those of their own stand for other changes.
pub open spec fn printable(c: Change) -> bool {
    &&& forall|i: int|
        0 <= i < change_fields(c).len() ==> (#[trigger] change_fields(c)[i]).len() > 0
            && !change_fields(c)[i].contains(0u8)
    &&& c matches Change::Other { letters, .. } ==> letters[0] != 0x41 && letters[0] != 0x44
        && letters[0] != 0x52 && letters[0] != 0x43
}

/// What is listed of a change: a renamed file by its new path, with the old one
/// beside it, a copy as a modified file, and everything else that is not an
/// addition or a deletion too.
pub open spec fn listed_as(c: Change) -> StrayView {
    match c {
        Change::Added { path } => StrayView { status: StatusView::Added, path: lossy_text(path) },
        Change::Deleted { path } => StrayView {
            status: StatusView::Deleted,
            path: lossy_text(path),
        },
        Change::Renamed { from, path, .. } => StrayView {
            status: StatusView::Renamed { from: lossy_text(from) },
            path: lossy_text(path),
        },
        Change::Copied { path, .. } => StrayView {
            status: StatusView::Modified,
            path: lossy_text(path),
        },
        Change::Other { path, .. } => StrayView {
            status: StatusView::Modified,
            path: lossy_text(path),
        },
    }
}

/// The fields that changes are printed as, one change after another.
pub open spec fn changes_fields(changes: Seq<Change>) -> Seq<Seq<u8>>
    decreases changes.len(),
{
    if changes.len() == 0 {
        Seq::empty()
    } else {
        change_fields(changes[0]) + changes_fields(changes.skip(1))
    }
}

proof fn lemma_changes(changes: Seq<Change>)
    requires
        forall|i: int| 0 <= i < changes.len() ==> printable(#[trigger] changes[i]),
    ensures
        forall|i: int|
            0 <= i < changes_fields(changes).len() ==> !(#[trigger] changes_fields(
                changes,
            )[i]).contains(0u8) && changes_fields(changes)[i].len() > 0,
        name_entries(changes_fields(changes)) == changes.map_values(|c: Change| listed_as(c)),
    decreases changes.len(),
{
    let all = changes_fields(changes);
    if changes.len() > 0 {
        let c = changes[0];
        let own = change_fields(c);
        let rest = changes.skip(1);
        assert(printable(c));
        assert forall|i: int| 0 <= i < rest.len() implies printable(#[trigger] rest[i]) by {
            assert(printable(changes[i + 1]));
        }
        lemma_changes(rest);
        assert forall|i: int| 0 <= i < all.len() implies !(#[trigger] all[i]).contains(0u8)
            && all[i].len() > 0 by {
            if i < own.len() {
                assert(all[i] == own[i]);
            } else {
                assert(all[i] == changes_fields(rest)[i - own.len()]);
            }
        }
        assert(all[0] == own[0] && all[1] == own[1]);
        if own.len() == 3 {
            assert(all[2] == own[2]);
        }
        assert(own[0].len() > 0);
        assert(all.skip(own.len() as int) =~= changes_fields(rest));
        assert(name_entries(all) =~= changes.map_values(|c: Change| listed_as(c)));
    } else {
        assert(name_entries(all) =~= changes.map_values(|c: Change| listed_as(c)));
    }
}

/// Every change that was committed since a base is listed for what it is, and
/// nothing else is.
pub proof fn changes_are_listed_for_what_they_are(changes: Seq<Change>)
    requires
        forall|i: int| 0 <= i < changes.len() ==> printable(#[trigger] changes[i]),
    ensures
        name_entries(full_records(ended(changes_fields(changes)))) == changes.map_values(
            |c: Change| listed_as(c),
        ),
{
    lemma_changes(changes);
    lemma_full(changes_fields(changes));
}

/// An entry that `status --porcelain=v2 -z` prints. The columns say what happened
/// in the index and in the worktree; `kind` is the `<sub>` field; `more` is the
/// modes and objects, which are not looked at.
pub ghost enum Entry {
    Ordinary { index: u8, worktree: u8, kind: Seq<u8>, more: Seq<Seq<u8>>, path: Seq<u8> },
    /// With the path that the file had before, which is a record of its own.
    Renamed { index: u8, worktree: u8, kind: Seq<u8>, more: Seq<Seq<u8>>, path: Seq<u8>, from: Seq<u8> },
    Unmerged { index: u8, worktree: u8, kind: Seq<u8>, more: Seq<Seq<u8>>, path: Seq<u8> },
    Untracked { path: Seq<u8> },
    Ignored { path: Seq<u8> },
    /// A line of the header.
    Header { text: Seq<u8> },
}

/// Fields set apart by spaces, and a path behind them.
pub open spec fn spaced(fields: Seq<Seq<u8>>, path: Seq<u8>) -> Seq<u8>
    decreases fields.len(),
{
    if fields.len() == 0 {
        path
    } else {
        fields[0].push(0x20u8) + spaced(fields.skip(1), path)
    }
}

/// The records that an entry is printed as.
pub open spec fn entry_records(e: Entry) -> Seq<Seq<u8>> {
    match e {
        Entry::Ordinary { index, worktree, kind, more, path } => seq![
            spaced(seq![seq![0x31u8], seq![index, worktree], kind] + more, path),
        ],
        Entry::Renamed { index, worktree, kind, more, path, from } => seq![
            spaced(seq![seq![0x32u8], seq![index, worktree], kind] + more, path),
            from,
        ],
        Entry::Unmerged { index, worktree, kind, more, path } => seq![
            spaced(seq![seq![0x75u8], seq![index, worktree], kind] + more, path),
        ],
        Entry::Untracked { path } => seq![spaced(seq![seq![0x3fu8]], path)],
        Entry::Ignored { path } => seq![spaced(seq![seq![0x21u8]], path)],
        Entry::Header { text } => seq![spaced(seq![seq![0x23u8]], text)],
    }
}

/// Whether fields are so many, and none holds a space.
pub open spec fn plain_fields(fields: Seq<Seq<u8>>, n: int) -> bool {
    fields.len() == n && forall|i: int|
        0 <= i < fields.len() ==> !(#[trigger] fields[i]).contains(0x20u8)
}

/// Whether an entry is one that git prints: a path is there, nothing holds a NUL,
/// and no field but the path holds a space.
pub open spec fn prints(e: Entry) -> bool {
    &&& forall|i: int|
        0 <= i < entry_records(e).len() ==> !(#[trigger] entry_records(e)[i]).contains(0u8)
    &&& match e {
        Entry::Ordinary { index, worktree, kind, more, path } => path.len() > 0 && plain_fields(
            seq![seq![index, worktree], kind] + more,
            7,
        ),
        Entry::Renamed { index, worktree, kind, more, path, .. } => path.len() > 0 && plain_fields(
            seq![seq![index, worktree], kind] + more,
            8,
        ),
        Entry::Unmerged { index, worktree, kind, more, path } => path.len() > 0 && plain_fields(
            seq![seq![index, worktree], kind] + more,
            9,
        ),
        Entry::Untracked { path } => path.len() > 0,
        Entry::Ignored { path } => true,
        Entry::Header { text } => true,
    }
}

/// The status that a column's letter stands for.
pub open spec fn letter_status(letter: u8) -> StatusView {
    if letter == 0x41 {
        StatusView::Added
    } else if letter == 0x44 {
        StatusView::Deleted
    } else if letter == 0x52 {
        StatusView::Renamed { from: Seq::empty() }
    } else {
        StatusView::Modified
    }
}

/// The column that counts: the worktree's, unless nothing happened there.
pub open spec fn telling(index: u8, worktree: u8) -> u8 {
    if worktree == 0x2e {
        index
    } else {
        worktree
    }
}

/// What is listed of an entry. What happened in the worktree says more than what
/// happened in the index, and that a path is a submodule more than either; a file
/// that was renamed and then deleted is gone. Ignored files and the header are not
/// listed.
pub open spec fn listed_for(e: Entry) -> Option<StrayView> {
    match e {
        Entry::Ordinary { index, worktree, kind, path, .. } => Some(
            StrayView {
                status: if kind.len() > 0 && kind[0] == 0x53 {
                    StatusView::Submodule
                } else {
                    letter_status(telling(index, worktree))
                },
                path: lossy_text(path),
            },
        ),
        Entry::Renamed { index, worktree, kind, path, from, .. } => Some(
            StrayView {
                status: if kind.len() > 0 && kind[0] == 0x53 {
                    StatusView::Submodule
                } else if telling(index, worktree) == 0x44 {
                    StatusView::Deleted
                } else {
                    StatusView::Renamed { from: lossy_text(from) }
                },
                path: lossy_text(path),
            },
        ),
        Entry::Unmerged { kind, path, .. } => Some(
            StrayView {
                status: if kind.len() > 0 && kind[0] == 0x53 {
                    StatusView::Submodule
                } else {
                    StatusView::Conflicted
                },
                path: lossy_text(path),
            },
        ),
        Entry::Untracked { path } => Some(
            StrayView { status: StatusView::Untracked, path: lossy_text(path) },
        ),
        Entry::Ignored { .. } => None,
        Entry::Header { .. } => None,
    }
}

/// The records that entries are printed as, one entry after another.
pub open spec fn entries_records(entries: Seq<Entry>) -> Seq<Seq<u8>>
    decreases entries.len(),
{
    if entries.len() == 0 {
        Seq::empty()
    } else {
        entry_records(entries[0]) + entries_records(entries.skip(1))
    }
}

/// What is listed of some entries, in their order.
pub open spec fn listed_for_all(entries: Seq<Entry>) -> Seq<StrayView>
    decreases entries.len(),
{
    if entries.len() == 0 {
        Seq::empty()
    } else {
        match listed_for(entries[0]) {
            Some(s) => seq![s] + listed_for_all(entries.skip(1)),
            None => listed_for_all(entries.skip(1)),
        }
    }
}

proof fn lemma_spaced(fields: Seq<Seq<u8>>, path: Seq<u8>)
    requires
        path.len() > 0,
        forall|i: int| 0 <= i < fields.len() ==> !(#[trigger] fields[i]).contains(0x20u8),
    ensures
        from_field(spaced(fields, path), fields.len()) == Some(path),
        spaced(fields, path).len() > 0,
        split_on(spaced(fields, path), 0x20u8) == fields + split_on(path, 0x20u8),
    decreases fields.len(),
{
    let record = spaced(fields, path);
    if fields.len() > 0 {
        let first = fields[0];
        let rest = fields.skip(1);
        assert forall|i: int| 0 <= i < rest.len() implies !(#[trigger] rest[i]).contains(0x20u8) by {
            assert(!fields[i + 1].contains(0x20u8));
        }
        lemma_spaced(rest, path);
        assert forall|j: int| 0 <= j < first.len() implies record[j] != 0x20u8 by {
            assert(record[j] == first[j]);
            assert(first.contains(first[j]));
        }
        let n = first.len() as int;
        lemma_index_is(record, 0x20u8, n);
        assert(record.take(n) =~= first);
        assert(record.skip(n + 1) =~= spaced(rest, path));
        assert(split_on(record, 0x20u8) =~= fields + split_on(path, 0x20u8));
    } else {
        assert(fields + split_on(path, 0x20u8) =~= split_on(path, 0x20u8));
    }
}

pub(crate) proof fn lemma_entry_fields(mark: u8, xy: Seq<u8>, kind: Seq<u8>, more: Seq<Seq<u8>>, path: Seq<u8>, n: nat)
    requires
        mark != 0x20,
        path.len() > 0,
        plain_fields(seq![xy, kind] + more, n as int - 1),
    ensures
        ({
            let record = spaced(seq![seq![mark], xy, kind] + more, path);
            &&& record.len() > 0
            &&& record[0] == mark
            &&& field_of(record, 1) == Some(xy)
            &&& field_of(record, 2) == Some(kind)
            &&& from_field(record, n) == Some(path)
        }),
{
    let fields = seq![seq![mark], xy, kind] + more;
    let tail = seq![xy, kind] + more;
    assert forall|i: int| 0 <= i < fields.len() implies !(#[trigger] fields[i]).contains(0x20u8) by {
        if i > 0 {
            assert(fields[i] == tail[i - 1]);
        }
    }
    lemma_spaced(fields, path);
    let record = spaced(fields, path);
    assert(fields[0] == seq![mark]);
    assert(split_on(record, 0x20u8)[1] == fields[1]);
    assert(split_on(record, 0x20u8)[2] == fields[2]);
}

proof fn lemma_entry(e: Entry, rest: Seq<Seq<u8>>)
    requires
        prints(e),
    ensures
        status_entries(entry_records(e) + rest) == at_most_one(listed_for(e)) + status_entries(rest),
{
    let own = entry_records(e);
    let all = own + rest;
    assert(all[0] == own[0]);
    if let Entry::Renamed { .. } = e {
        assert(all.skip(1)[0] == own[1]);
        assert(all.skip(1).skip(1) =~= rest);
    } else {
        assert(all.skip(1) =~= rest);
    }
    match e {
        Entry::Ordinary { index, worktree, kind, more, path } => {
            lemma_entry_fields(0x31, seq![index, worktree], kind, more, path, 8);
        },
        Entry::Renamed { index, worktree, kind, more, path, from } => {
            lemma_entry_fields(0x32, seq![index, worktree], kind, more, path, 9);
        },
        Entry::Unmerged { index, worktree, kind, more, path } => {
            lemma_entry_fields(0x75, seq![index, worktree], kind, more, path, 10);
        },
        Entry::Untracked { path } => {
            lemma_spaced(seq![seq![0x3fu8]], path);
            assert(own[0][0] == 0x3f);
        },
        Entry::Ignored { path } => {
            assert(own[0][0] == 0x21);
        },
        Entry::Header { text } => {
            assert(own[0][0] == 0x23);
        },
    }
    assert(status_entries(all) =~= at_most_one(listed_for(e)) + status_entries(rest));
}

pub(crate) proof fn lemma_entries(entries: Seq<Entry>)
    requires
        forall|i: int| 0 <= i < entries.len() ==> prints(#[trigger] entries[i]),
    ensures
        forall|i: int|
            0 <= i < entries_records(entries).len() ==> !(#[trigger] entries_records(
                entries,
            )[i]).contains(0u8),
        status_entries(entries_records(entries)) == listed_for_all(entries),
    decreases entries.len(),
{
    let all = entries_records(entries);
    if entries.len() > 0 {
        let own = entry_records(entries[0]);
        let rest = entries.skip(1);
        assert(prints(entries[0]));
        assert forall|i: int| 0 <= i < rest.len() implies prints(#[trigger] rest[i]) by {
            assert(prints(entries[i + 1]));
        }
        lemma_entries(rest);
        lemma_entry(entries[0], entries_records(rest));
        assert forall|i: int| 0 <= i < all.len() implies !(#[trigger] all[i]).contains(0u8) by {
            if i < own.len() {
                assert(all[i] == own[i]);
            } else {
                assert(all[i] == entries_records(rest)[i - own.len()]);
            }
        }
        assert(status_entries(all) =~= listed_for_all(entries));
    } else {
        assert(status_entries(all) =~= listed_for_all(entries));
    }
}

/// Every file that strayed is listed for what it is, and nothing else is: whatever
/// git prints about it, and about the files before and behind it.
pub proof fn strays_are_listed_for_what_they_are(entries: Seq<Entry>)
    requires
        forall|i: int| 0 <= i < entries.len() ==> prints(#[trigger] entries[i]),
    ensures
        status_entries(nul_records(ended(entries_records(entries)))) == listed_for_all(entries),
{
    lemma_entries(entries);
    records_read_back(entries_records(entries));
}

proof fn lemma_number_word(n: nat)
    ensures
        decimal_of(n).len() > 0,
        forall|i: int| 0 <= i < decimal_of(n).len() ==> !is_space(#[trigger] decimal_of(n)[i]),
{
    lemma_decimal(n);
    let s = decimal_of(n);
    assert forall|i: int| 0 <= i < s.len() implies !is_space(#[trigger] s[i]) by {
        assert(is_digit(s[i]));
    }
}

/// The first of the two counts that git prints is how far the branch is behind,
/// and the second how far it is ahead.
pub proof fn the_upstream_is_counted_on_the_left(behind: usize, ahead: usize)
    ensures
        upstream_in(decimal_of(behind as nat).push('\t') + decimal_of(ahead as nat).push('\n'))
            == Some(Upstream { ahead, behind }),
{
    let (b, a) = (decimal_of(behind as nat), decimal_of(ahead as nat));
    lemma_number_word(behind as nat);
    lemma_number_word(ahead as nat);
    decimal_reads_back(behind as nat);
    decimal_reads_back(ahead as nat);
    words_end_at_white_space(b, '\t', a.push('\n'));
    words_end_at_white_space(a, '\n', Seq::empty());
    assert(a.push('\n') + Seq::<char>::empty() =~= a.push('\n'));
    assert(words_of(Seq::<char>::empty()) =~= Seq::<Seq<char>>::empty());
}

} // verus!
