//! Parser for `git status --porcelain=v2 -z`.
//!
//! Format reference (git docs, "Porcelain Format Version 2"):
//!   ordinary:  `1 <XY> <sub> <mH> <mI> <mW> <hH> <hI> <path>`
//!   renamed:   `2 <XY> <sub> <mH> <mI> <mW> <hH> <hI> <X><score> <path>\0<origPath>`
//!   unmerged:  `u <XY> <sub> <m1> <m2> <m3> <mW> <h1> <h2> <h3> <path>`
//!   untracked: `? <path>`
//!   ignored:   `! <path>`
//!
//! With `-z` every record ends in NUL, and a rename record consumes a *second*
//! NUL-terminated field for the original path. That extra field is why this
//! parser walks records itself instead of splitting the whole buffer.

use vstd::prelude::*;
use vstd::slice::slice_subrange;
use vstd::string::*;

use crate::bytes::{
    decode, find_byte, lossy_text, slice_view, slices, split_bytes, DIGIT_1, DIGIT_2, DOT, LOWER_U,
    NUL, QUESTION, SPACE, UPPER_A, UPPER_C, UPPER_D, UPPER_R, UPPER_S,
};
use crate::model::{stray_views, StatusView, Stray, StrayStatus, StrayView, Upstream};
use crate::seqs::{index_of, split_on};
use crate::git::base::Base;
use crate::git::run::GitError;
use crate::git::submodule::{all_inside, expanded, expanded_views, Checkout};
use crate::paths::{path_less, same_path};
use crate::sorting::{
    among, by_path, dedup_by_path, in_path_order, is_among, lemma_by_path_map,
    lemma_one_per_path_map, one_per_path, repeats_keep_paths, sort_by_path, sorted_without_repeats,
    sorting_is_stable, sorting_keeps_items, Pathed,
};
use crate::text::{nat_upto, parse_usize, text_view, texts, trim, trimmed, words, words_of};

pub mod records;

verus! {

/// The records of a buffer: each ends at a NUL, and what follows the last NUL
/// is a record too, unless there is nothing.
pub open spec fn nul_records(buf: Seq<u8>) -> Seq<Seq<u8>>
    decreases buf.len(),
{
    if buf.len() == 0 {
        Seq::empty()
    } else {
        let i = index_of(buf, NUL);
        if i < buf.len() {
            seq![buf.take(i as int)] + nul_records(buf.skip(i as int + 1))
        } else {
            seq![buf]
        }
    }
}

/// Walks NUL-terminated records, handing them out one at a time so that a rename
/// record can pull its trailing original path.
pub struct NulRecords<'a> {
    rest: &'a [u8],
}

impl<'a> NulRecords<'a> {
    /// The bytes that have not been handed out.
    pub closed spec fn left(&self) -> Seq<u8> {
        self.rest@
    }

    /// Starts at the front of a buffer.
    pub fn new(buf: &'a [u8]) -> (r: Self)
        ensures
            r.left() == buf@,
    {
        NulRecords { rest: buf }
    }

    /// The next record, if there is one.
    pub fn next(&mut self) -> (r: Option<&'a [u8]>)
        ensures
            match r {
                Some(record) => {
                    &&& nul_records(old(self).left()) == seq![record@] + nul_records(
                        final(self).left(),
                    )
                    &&& final(self).left().len() < old(self).left().len()
                },
                None => nul_records(old(self).left()).len() == 0 && final(self).left() == old(
                    self,
                ).left(),
            },
    {
        if self.rest.len() == 0 {
            return None;
        }
        let rest = self.rest;
        let at: usize = find_byte(rest, 0, NUL);
        proof {
            assert(rest@.skip(0) =~= rest@);
        }
        if at < rest.len() {
            let record = slice_subrange(rest, 0, at);
            self.rest = slice_subrange(rest, at + 1, rest.len());
            proof {
                assert(record@ =~= rest@.take(at as int));
                assert(self.rest@ =~= rest@.skip(at as int + 1));
            }
            Some(record)
        } else {
            self.rest = slice_subrange(rest, rest.len(), rest.len());
            proof {
                assert(self.rest@ =~= Seq::<u8>::empty());
                assert(nul_records(rest@) =~= seq![rest@] + nul_records(self.rest@));
            }
            Some(rest)
        }
    }

    /// Every record that is left.
    pub fn collect_all(self) -> (r: Vec<&'a [u8]>)
        ensures
            slices(r@) == nul_records(self.left()),
    {
        let mut records = self;
        let mut out: Vec<&'a [u8]> = Vec::new();
        let ghost all = nul_records(self.left());
        assert(slices(out@) =~= Seq::<Seq<u8>>::empty());
        loop
            invariant
                all =~= slices(out@) + nul_records(records.left()),
            ensures
                all =~= slices(out@),
            decreases records.left().len(),
        {
            let ghost before = slices(out@);
            match records.next() {
                Some(record) => {
                    out.push(record);
                    assert(slices(out@) =~= before.push(record@));
                },
                None => {
                    break;
                },
            }
        }
        out
    }
}

/// Field `n`, counted from 0, of a record whose fields are set apart by spaces.
pub open spec fn field_of(record: Seq<u8>, n: nat) -> Option<Seq<u8>> {
    let fields = split_on(record, SPACE);
    if n < fields.len() {
        Some(fields[n as int])
    } else {
        None
    }
}

/// Everything from field `n` to the end of the record, if there is anything.
pub open spec fn from_field(record: Seq<u8>, n: nat) -> Option<Seq<u8>>
    decreases n,
{
    if n == 0 {
        Some(record)
    } else {
        let i = index_of(record, SPACE);
        if i + 1 < record.len() {
            from_field(record.skip(i as int + 1), (n - 1) as nat)
        } else {
            None
        }
    }
}

/// Field `n`, counted from 0, of a record whose fields are set apart by spaces.
pub fn field(record: &[u8], n: usize) -> (r: Option<&[u8]>)
    ensures
        slice_view(r) == field_of(record@, n as nat),
{
    let fields = split_bytes(record, SPACE);
    proof {
        assert(slices(fields@).len() == fields@.len());
    }
    if n < fields.len() {
        assert(slices(fields@)[n as int] == fields@[n as int]@);
        Some(fields[n])
    } else {
        None
    }
}

/// Everything from field `n` to the end of the record.
///
/// Paths may contain spaces, so the final field must not be split further.
pub fn field_after(record: &[u8], n: usize) -> (r: Option<&[u8]>)
    ensures
        slice_view(r) == from_field(record@, n as nat),
{
    let mut seen: usize = 0;
    let mut idx: usize = 0;
    assert(record@.skip(0) =~= record@);
    while seen < n
        invariant
            seen <= n,
            idx <= record@.len(),
            from_field(record@, n as nat) == from_field(record@.skip(idx as int), (n - seen) as nat),
        decreases n - seen,
    {
        let at: usize = find_byte(record, idx, SPACE);
        let ghost rest = record@.skip(idx as int);
        if at == record.len() || at + 1 == record.len() {
            return None;
        }
        proof {
            assert(rest.skip(at - idx + 1) =~= record@.skip(at + 1));
        }
        idx = at + 1;
        seen += 1;
    }
    proof {
        assert(record@.subrange(idx as int, record@.len() as int) =~= record@.skip(idx as int));
    }
    Some(slice_subrange(record, idx, record.len()))
}

/// Whether a `<sub>` field describes a submodule.
///
/// It is `N...` for an ordinary path and `S<c><m><u>` for a submodule.
pub open spec fn says_submodule(sub: Seq<u8>) -> bool {
    sub.len() > 0 && sub[0] == UPPER_S
}

fn is_submodule(sub: &[u8]) -> (r: bool)
    ensures
        r == says_submodule(sub@),
{
    sub.len() > 0 && sub[0] == UPPER_S
}

/// The column of an `<XY>` code that counts: the worktree's where it says
/// anything, else the index's. `.` stands for nothing.
pub open spec fn effective_column(xy: Seq<u8>) -> u8 {
    if xy.len() > 1 && xy[1] != DOT {
        xy[1]
    } else if xy.len() > 0 {
        xy[0]
    } else {
        DOT
    }
}

/// The status that an `<XY>` code stands for.
pub open spec fn xy_status(xy: Seq<u8>) -> StatusView {
    let c = effective_column(xy);
    if c == UPPER_A {
        StatusView::Added
    } else if c == UPPER_D {
        StatusView::Deleted
    } else if c == UPPER_R {
        StatusView::Renamed { from: Seq::empty() }
    } else {
        StatusView::Modified
    }
}

/// The status that an `<XY>` code stands for.
///
/// The worktree column wins when both are set, because that is the state the
/// file is actually in on disk right now.
fn status_from_xy(xy: &[u8]) -> (r: StrayStatus)
    ensures
        r@ == xy_status(xy@),
{
    let effective: u8 = if xy.len() > 1 && xy[1] != DOT {
        xy[1]
    } else if xy.len() > 0 {
        xy[0]
    } else {
        DOT
    };
    if effective == UPPER_A {
        StrayStatus::Added
    } else if effective == UPPER_D {
        StrayStatus::Deleted
    } else if effective == UPPER_R {
        StrayStatus::Renamed { from: String::new() }
    } else {
        StrayStatus::Modified
    }
}

/// What an ordinary record says: its path is field 8.
pub open spec fn ordinary_entry(record: Seq<u8>) -> Option<StrayView> {
    match (field_of(record, 1), field_of(record, 2), from_field(record, 8)) {
        (Some(xy), Some(sub), Some(path)) => Some(
            StrayView {
                status: if says_submodule(sub) {
                    StatusView::Submodule
                } else {
                    xy_status(xy)
                },
                path: lossy_text(path),
            },
        ),
        _ => None,
    }
}

/// What a rename record says: its path is field 9, and the original path is a
/// record of its own.
///
/// A moved submodule is still a submodule, and a rename that was then deleted
/// is a deletion.
pub open spec fn renamed_entry(record: Seq<u8>, orig: Seq<u8>) -> Option<StrayView> {
    match (field_of(record, 1), field_of(record, 2), from_field(record, 9)) {
        (Some(xy), Some(sub), Some(path)) => Some(
            StrayView {
                status: if says_submodule(sub) {
                    StatusView::Submodule
                } else if xy_status(xy) is Deleted {
                    StatusView::Deleted
                } else {
                    StatusView::Renamed { from: lossy_text(orig) }
                },
                path: lossy_text(path),
            },
        ),
        _ => None,
    }
}

/// What an unmerged record says: its path is field 10.
pub open spec fn unmerged_entry(record: Seq<u8>) -> Option<StrayView> {
    match from_field(record, 10) {
        Some(path) => Some(
            StrayView {
                status: match field_of(record, 2) {
                    Some(sub) => if says_submodule(sub) {
                        StatusView::Submodule
                    } else {
                        StatusView::Conflicted
                    },
                    None => StatusView::Conflicted,
                },
                path: lossy_text(path),
            },
        ),
        None => None,
    }
}

/// What an untracked record says: its path is field 1.
pub open spec fn untracked_entry(record: Seq<u8>) -> Option<StrayView> {
    match from_field(record, 1) {
        Some(path) => Some(StrayView { status: StatusView::Untracked, path: lossy_text(path) }),
        None => None,
    }
}

/// A sequence of the one value, or of none.
pub open spec fn at_most_one<T>(o: Option<T>) -> Seq<T> {
    match o {
        Some(x) => seq![x],
        None => Seq::empty(),
    }
}

/// What the records of a status buffer say, in their order. A rename record
/// takes the record after it as well; a record of another kind says nothing.
pub open spec fn status_entries(records: Seq<Seq<u8>>) -> Seq<StrayView>
    decreases records.len(),
{
    if records.len() == 0 {
        Seq::empty()
    } else {
        let record = records[0];
        let rest = records.skip(1);
        if record.len() == 0 {
            status_entries(rest)
        } else if record[0] == DIGIT_1 {
            at_most_one(ordinary_entry(record)) + status_entries(rest)
        } else if record[0] == DIGIT_2 {
            if rest.len() == 0 {
                at_most_one(renamed_entry(record, Seq::empty()))
            } else {
                at_most_one(renamed_entry(record, rest[0])) + status_entries(rest.skip(1))
            }
        } else if record[0] == LOWER_U {
            at_most_one(unmerged_entry(record)) + status_entries(rest)
        } else if record[0] == QUESTION {
            at_most_one(untracked_entry(record)) + status_entries(rest)
        } else {
            status_entries(rest)
        }
    }
}

/// The characters of an optional file's texts.
pub open spec fn stray_view(o: Option<Stray>) -> Option<StrayView> {
    match o {
        Some(s) => Some(s@),
        None => None,
    }
}

fn parse_ordinary(record: &[u8]) -> (r: Option<Stray>)
    ensures
        stray_view(r) == ordinary_entry(record@),
{
    let xy = field(record, 1)?;
    let sub = field(record, 2)?;
    let path = field_after(record, 8)?;
    let status = if is_submodule(sub) {
        StrayStatus::Submodule
    } else {
        status_from_xy(xy)
    };
    Some(Stray { status, path: lossy_path(path) })
}

fn parse_renamed(record: &[u8], orig: &[u8]) -> (r: Option<Stray>)
    ensures
        stray_view(r) == renamed_entry(record@, orig@),
{
    let xy = field(record, 1)?;
    let sub = field(record, 2)?;
    let path = field_after(record, 9)?;
    if is_submodule(sub) {
        return Some(Stray { status: StrayStatus::Submodule, path: lossy_path(path) });
    }
    let status = match status_from_xy(xy) {
        StrayStatus::Deleted => StrayStatus::Deleted,
        _ => StrayStatus::Renamed { from: lossy_path(orig) },
    };
    Some(Stray { status, path: lossy_path(path) })
}

fn parse_unmerged(record: &[u8]) -> (r: Option<Stray>)
    ensures
        stray_view(r) == unmerged_entry(record@),
{
    let path = field_after(record, 10)?;
    let status = match field(record, 2) {
        Some(sub) => if is_submodule(sub) {
            StrayStatus::Submodule
        } else {
            StrayStatus::Conflicted
        },
        None => StrayStatus::Conflicted,
    };
    Some(Stray { status, path: lossy_path(path) })
}

fn parse_untracked(record: &[u8]) -> (r: Option<Stray>)
    ensures
        stray_view(r) == untracked_entry(record@),
{
    let path = field_after(record, 1)?;
    Some(Stray { status: StrayStatus::Untracked, path: lossy_path(path) })
}

/// A path as text. Bytes that are not UTF-8 are replaced rather than dropping
/// the entry, so an odd filename still appears in the list.
pub fn lossy_path(bytes: &[u8]) -> (r: String)
    ensures
        r@ == lossy_text(bytes@),
{
    decode(bytes)
}

fn add_one(list: &mut Vec<Stray>, one: Option<Stray>)
    ensures
        stray_views(final(list)@) == stray_views(old(list)@) + at_most_one(stray_view(one)),
{
    if let Some(stray) = one {
        list.push(stray);
    }
    proof {
        assert(stray_views(list@) =~= stray_views(old(list)@) + at_most_one(stray_view(one)));
    }
}

/// Sorting strays sorts what they say.
proof fn lemma_sorted_views(v: Seq<Stray>)
    ensures
        stray_views(by_path(v, |x: Stray| x.at())) == by_path(
            stray_views(v),
            |s: StrayView| s.path,
        ),
{
    lemma_by_path_map(v, |x: Stray| x.at(), |s: Stray| s@, |s: StrayView| s.path);
}

/// Split a NUL-separated porcelain v2 buffer into strays, in the order of their
/// paths.
///
/// Unknown record types are skipped rather than treated as an error: a future
/// git may add a header that is not modelled here, and a viewer should still
/// show what it understood.
pub fn parse_status(buf: &[u8]) -> (r: Vec<Stray>)
    ensures
        stray_views(r@) == by_path(status_entries(nul_records(buf@)), |s: StrayView| s.path),
{
    let mut strays: Vec<Stray> = Vec::new();
    let mut records = NulRecords::new(buf);
    let ghost all = status_entries(nul_records(buf@));
    assert(stray_views(strays@) =~= Seq::<StrayView>::empty());
    loop
        invariant
            all =~= stray_views(strays@) + status_entries(nul_records(records.left())),
        ensures
            all =~= stray_views(strays@),
        decreases records.left().len(),
    {
        let ghost before = nul_records(records.left());
        match records.next() {
            None => {
                break;
            },
            Some(record) => {
                proof {
                    assert(before[0] == record@);
                    assert(before.skip(1) =~= nul_records(records.left()));
                }
                if record.len() == 0 {
                } else if record[0] == DIGIT_1 {
                    add_one(&mut strays, parse_ordinary(record));
                } else if record[0] == DIGIT_2 {
                    let ghost rest = nul_records(records.left());
                    let next = records.next();
                    match next {
                        Some(orig) => {
                            assert(rest[0] == orig@);
                            assert(rest.skip(1) =~= nul_records(records.left()));
                            add_one(&mut strays, parse_renamed(record, orig));
                        },
                        None => {
                            let none: Vec<u8> = Vec::new();
                            assert(none@ =~= Seq::<u8>::empty());
                            add_one(&mut strays, parse_renamed(record, none.as_slice()));
                        },
                    }
                } else if record[0] == LOWER_U {
                    add_one(&mut strays, parse_unmerged(record));
                } else if record[0] == QUESTION {
                    add_one(&mut strays, parse_untracked(record));
                }
            },
        }
    }
    proof {
        lemma_sorted_views(strays@);
    }
    sort_by_path(strays)
}

/// What the fields of a `diff --name-status -z` buffer say, in their order: a
/// status and a path, or a status and two paths for a rename or a copy.
///
/// A copy has no origin here; it reads as modified, as does everything that is
/// not an addition, a deletion or a rename. Fields that break off before their
/// last path say nothing.
pub open spec fn name_entries(fields: Seq<Seq<u8>>) -> Seq<StrayView>
    decreases fields.len(),
{
    if fields.len() == 0 {
        Seq::empty()
    } else {
        let letter = fields[0][0];
        let wanted: int = if letter == UPPER_R || letter == UPPER_C {
            2
        } else {
            1
        };
        if wanted >= fields.len() {
            Seq::empty()
        } else {
            let status = if letter == UPPER_A {
                StatusView::Added
            } else if letter == UPPER_D {
                StatusView::Deleted
            } else if letter == UPPER_R {
                StatusView::Renamed { from: lossy_text(fields[1]) }
            } else {
                StatusView::Modified
            };
            seq![StrayView { status, path: lossy_text(fields[wanted]) }] + name_entries(
                fields.skip(wanted + 1),
            )
        }
    }
}

/// The records of a buffer that hold anything.
pub open spec fn full_records(buf: Seq<u8>) -> Seq<Seq<u8>> {
    nul_records(buf).filter(|r: Seq<u8>| r.len() > 0)
}

fn collect_full<'a>(buf: &'a [u8]) -> (r: Vec<&'a [u8]>)
    ensures
        slices(r@) == full_records(buf@),
        forall|i: int| 0 <= i < r@.len() ==> (#[trigger] r@[i])@.len() > 0,
{
    let all = NulRecords::new(buf).collect_all();
    let mut out: Vec<&'a [u8]> = Vec::new();
    let ghost p = |r: Seq<u8>| r.len() > 0;
    let ghost records = nul_records(buf@);
    proof {
        reveal(Seq::filter);
        assert(records.take(0).filter(p) =~= Seq::<Seq<u8>>::empty());
        assert(slices(out@) =~= Seq::<Seq<u8>>::empty());
    }
    for i in 0..all.len()
        invariant
            p == (|r: Seq<u8>| r.len() > 0),
            slices(all@) == records,
            records == nul_records(buf@),
            slices(out@) =~= records.take(i as int).filter(p),
            forall|i: int| 0 <= i < out@.len() ==> (#[trigger] out@[i])@.len() > 0,
    {
        let record = all[i];
        let ghost before = slices(out@);
        proof {
            assert(records[i as int] == record@);
            assert(records.take(i + 1) =~= records.take(i as int).push(record@));
            records.take(i as int).lemma_filter_push(record@, p);
        }
        if record.len() > 0 {
            out.push(record);
            assert(slices(out@) =~= before.push(record@));
        }
    }
    assert(records.take(records.len() as int) =~= records);
    out
}

/// Split a NUL-separated `diff --name-status -z` buffer into strays, in the
/// order of their paths.
///
/// Records alternate status and path — `M\0path\0` — except renames and copies,
/// which carry a similarity score and *two* paths: `R100\0old\0new\0`. For a
/// rename the *new* path is what exists on disk to be opened.
pub fn parse_name_status(buf: &[u8]) -> (r: Vec<Stray>)
    ensures
        stray_views(r@) == by_path(name_entries(full_records(buf@)), |s: StrayView| s.path),
{
    let fields = collect_full(buf);
    let ghost all = full_records(buf@);
    let mut strays: Vec<Stray> = Vec::new();
    let mut at: usize = 0;
    assert(all.skip(0) =~= all);
    assert(stray_views(strays@) =~= Seq::<StrayView>::empty());
    while at < fields.len()
        invariant
            slices(fields@) == all,
            at <= fields@.len(),
            forall|i: int| 0 <= i < fields@.len() ==> (#[trigger] fields@[i])@.len() > 0,
            name_entries(all) =~= stray_views(strays@) + name_entries(all.skip(at as int)),
        ensures
            name_entries(all) =~= stray_views(strays@),
        decreases fields@.len() - at,
    {
        let ghost rest = all.skip(at as int);
        assert(rest[0] == fields@[at as int]@);
        let letter: u8 = fields[at][0];
        let wanted: usize = if letter == UPPER_R || letter == UPPER_C {
            2
        } else {
            1
        };
        if wanted >= fields.len() - at {
            break;
        }
        assert(rest[1] == fields@[at + 1]@);
        assert(rest[wanted as int] == fields@[at + wanted]@);
        let status = if letter == UPPER_A {
            StrayStatus::Added
        } else if letter == UPPER_D {
            StrayStatus::Deleted
        } else if letter == UPPER_R {
            StrayStatus::Renamed { from: lossy_path(fields[at + 1]) }
        } else {
            StrayStatus::Modified
        };
        let path = lossy_path(fields[at + wanted]);
        let ghost before = stray_views(strays@);
        let stray = Stray { status, path };
        strays.push(stray);
        proof {
            assert(stray_views(strays@) =~= before.push(stray@));
            assert(rest.skip(wanted + 1) =~= all.skip(at + wanted + 1));
        }
        at = at + wanted + 1;
    }
    proof {
        lemma_sorted_views(strays@);
    }
    sort_by_path(strays)
}

/// The texts of a buffer's records that hold anything.
pub open spec fn record_texts(buf: Seq<u8>) -> Seq<Seq<char>> {
    full_records(buf).map_values(|r: Seq<u8>| lossy_text(r))
}

/// Split a NUL-separated `ls-files` buffer into paths, in their order.
pub fn parse_tracked(buf: &[u8]) -> (r: Vec<String>)
    ensures
        texts(r@) == by_path(record_texts(buf@), |p: Seq<char>| p),
{
    let records = collect_full(buf);
    let mut paths: Vec<String> = Vec::new();
    for i in 0..records.len()
        invariant
            slices(records@) == full_records(buf@),
            paths@.len() == i,
            forall|j: int| 0 <= j < i ==> (#[trigger] paths@[j])@ == lossy_text(records@[j]@),
    {
        paths.push(lossy_path(records[i]));
    }
    proof {
        assert(texts(paths@) =~= record_texts(buf@)) by {
            assert forall|j: int| 0 <= j < paths@.len() implies texts(paths@)[j] == record_texts(
                buf@,
            )[j] by {
                assert(full_records(buf@)[j] == records@[j]@);
                assert(paths@[j]@ == lossy_text(records@[j]@));
            }
            assert(full_records(buf@).len() == records@.len());
        }
        lemma_by_path_map(paths@, |x: String| x.at(), |s: String| s@, |p: Seq<char>| p);
    }
    sort_by_path(paths)
}

/// Every file that git tracks, from what `ls-files -z` answered.
///
/// Ignored and untracked paths are absent by construction: the question is put
/// to the index, not to the worktree.
pub fn list_tracked(out: Result<Vec<u8>, GitError>) -> (r: Result<Vec<String>, GitError>)
    ensures
        match out {
            Err(e) => r == Err::<Vec<String>, GitError>(e),
            Ok(buf) => r matches Ok(paths) && texts(paths@) == by_path(
                record_texts(buf@),
                |p: Seq<char>| p,
            ),
        },
{
    match out {
        Err(e) => Err(e),
        Ok(buf) => Ok(parse_tracked(buf.as_slice())),
    }
}

/// The `<behind>\t<ahead>` pair in a text: its first two words, where both are
/// counts.
pub open spec fn upstream_in(text: Seq<char>) -> Option<Upstream> {
    let counts = words_of(text);
    if counts.len() < 2 {
        None
    } else {
        match (
            nat_upto(counts[0], usize::MAX as nat),
            nat_upto(counts[1], usize::MAX as nat),
        ) {
            (Some(behind), Some(ahead)) => Some(
                Upstream { ahead: ahead as usize, behind: behind as usize },
            ),
            _ => None,
        }
    }
}

/// Split the `<behind>\t<ahead>` pair `rev-list --left-right` prints.
///
/// Left is the upstream side of the `...` range and right is ours, so the
/// columns arrive in the opposite order to how they are displayed.
pub fn parse_upstream(text: &str) -> (r: Option<Upstream>)
    ensures
        r == upstream_in(text@),
{
    let counts = words(text);
    proof {
        assert(texts(counts@).len() == counts@.len());
    }
    if counts.len() < 2 {
        return None;
    }
    proof {
        assert(texts(counts@)[0] == counts@[0]@);
        assert(texts(counts@)[1] == counts@[1]@);
    }
    let behind: usize = parse_usize(counts[0].as_str())?;
    let ahead: usize = parse_usize(counts[1].as_str())?;
    Some(Upstream { ahead, behind })
}

/// How far a worktree's branch is from the remote branch it tracks, from what
/// `rev-list --count --left-right @{u}...HEAD` answered.
///
/// `None` when there is no upstream at all — a local-only branch, a detached
/// HEAD, or a repository with no remote. That is a different answer from "in
/// sync", and conflating the two would tell the user they had pushed when
/// there is nowhere to push to.
pub fn upstream_of(out: &Result<Vec<u8>, GitError>) -> (r: Option<Upstream>)
    ensures
        r == (match *out {
            Err(_) => None,
            Ok(bytes) => upstream_in(lossy_text(bytes@)),
        }),
{
    match out {
        Err(_) => None,
        Ok(bytes) => {
            let text = decode(bytes.as_slice());
            parse_upstream(text.as_str())
        },
    }
}

/// What an answer of git says, without the white space around it, if it says
/// anything.
pub open spec fn trimmed_answer(out: Result<Vec<u8>, GitError>) -> Option<Seq<char>> {
    match out {
        Err(_) => None,
        Ok(bytes) => if trimmed(lossy_text(bytes@)).len() == 0 {
            None
        } else {
            Some(trimmed(lossy_text(bytes@)))
        },
    }
}

/// What an answer of git says, without the white space around it, if it says
/// anything.
pub(crate) fn answer_text(out: &Result<Vec<u8>, GitError>) -> (r: Option<String>)
    ensures
        text_view(r) == trimmed_answer(*out),
{
    match out {
        Err(_) => None,
        Ok(bytes) => {
            let text = decode(bytes.as_slice());
            let name = trim(text.as_str());
            if name.is_empty() {
                None
            } else {
                Some(name)
            }
        },
    }
}

/// The branch a worktree is on, or its short commit when HEAD is detached, from
/// what `symbolic-ref --quiet --short HEAD` and `rev-parse --short HEAD`
/// answered.
///
/// `symbolic-ref` is the direct question — "what branch is this?" — and it
/// fails on a detached HEAD rather than inventing an answer, which is exactly
/// where the short SHA belongs instead.
pub fn branch_of(symbolic: &Result<Vec<u8>, GitError>, short: &Result<Vec<u8>, GitError>) -> (r:
    Option<String>)
    ensures
        text_view(r) == (match trimmed_answer(*symbolic) {
            Some(name) => Some(name),
            None => trimmed_answer(*short),
        }),
{
    match answer_text(symbolic) {
        Some(name) => Some(name),
        None => answer_text(short),
    }
}

/// Whether a file of the list stands at the path `p`.
pub open spec fn claimed(list: Seq<StrayView>, p: Seq<char>) -> bool {
    exists|i: int| 0 <= i < list.len() && same_path((#[trigger] list[i]).path, p)
}

/// The paths of a list, in their order, to be looked up in.
///
/// Looked up rather than scanned for each file: a branch that has moved a long
/// way can list thousands of files on both sides, and pairing them off would be
/// quadratic in exactly the case that already has the most to read.
pub(crate) fn claimed_paths(list: &Vec<Stray>) -> (r: Vec<String>)
    ensures
        in_path_order(r@, |s: String| s.at()),
        forall|p: Seq<char>| #[trigger] among(r@, p) == claimed(stray_views(list@), p),
{
    let ghost views = stray_views(list@);
    let ghost key = |s: String| s.at();
    let mut paths: Vec<String> = Vec::new();
    for i in 0..list.len()
        invariant
            paths@.len() == i,
            forall|j: int| 0 <= j < i ==> (#[trigger] paths@[j])@ == list@[j].path@,
    {
        paths.push(list[i].path.clone());
    }
    let ghost all = paths@;
    let sorted = sort_by_path(paths);
    proof {
        sorting_is_stable(all, key);
        assert forall|p: Seq<char>| #[trigger] among(sorted@, p) == claimed(views, p) by {
            if among(sorted@, p) {
                let i = choose|i: int|
                    0 <= i < sorted@.len() && same_path((#[trigger] sorted@[i])@, p);
                assert(sorted@.contains(sorted@[i]));
                sorting_keeps_items(all, key, sorted@[i]);
                let k = all.index_of(sorted@[i]);
                assert(views[k].path == all[k]@);
                assert(same_path(views[k].path, p));
            }
            if claimed(views, p) {
                let k = choose|k: int|
                    0 <= k < views.len() && same_path((#[trigger] views[k]).path, p);
                assert(views[k].path == all[k]@);
                assert(all.contains(all[k]));
                sorting_keeps_items(all, key, all[k]);
                let i = sorted@.index_of(all[k]);
                assert(same_path(sorted@[i]@, p));
            }
        }
    }
    sorted
}

/// The files that only the commits know, and all that the worktree knows.
pub open spec fn either_list(committed: Seq<StrayView>, working: Seq<StrayView>) -> Seq<StrayView> {
    committed.filter(|c: StrayView| !claimed(working, c.path)) + working
}

/// Both lists in one, in the order of the paths, each path once. A file in both
/// takes the worktree's entry.
pub open spec fn merged(committed: Seq<StrayView>, working: Seq<StrayView>) -> Seq<StrayView> {
    let key = |s: StrayView| s.path;
    one_per_path(by_path(either_list(committed, working), key), key)
}

/// Lay the worktree's list over the list of what the commits changed.
pub fn merge_lists(committed: Vec<Stray>, working: Vec<Stray>) -> (r: Vec<Stray>)
    ensures
        stray_views(r@) == merged(stray_views(committed@), stray_views(working@)),
{
    let ghost work = stray_views(working@);
    let ghost all = stray_views(committed@);
    let ghost p = |c: StrayView| !claimed(work, c.path);
    let taken = claimed_paths(&working);
    let mut out: Vec<Stray> = Vec::new();
    proof {
        reveal(Seq::filter);
        assert(all.take(0).filter(p) =~= Seq::<StrayView>::empty());
        assert(stray_views(out@) =~= Seq::<StrayView>::empty());
    }
    for stray in it: committed
        invariant
            it.seq() == committed@,
            work == stray_views(working@),
            all == stray_views(committed@),
            p == (|c: StrayView| !claimed(work, c.path)),
            in_path_order(taken@, |s: String| s.at()),
            forall|q: Seq<char>| #[trigger] among(taken@, q) == claimed(work, q),
            stray_views(out@) =~= all.take(it.index() as int).filter(p),
    {
        let ghost n = it.index() as int;
        let ghost before = stray_views(out@);
        proof {
            assert(all[n] == stray@);
            assert(all.take(n + 1) =~= all.take(n).push(stray@));
            all.take(n).lemma_filter_push(stray@, p);
        }
        if !is_among(&taken, stray.path.as_str()) {
            out.push(stray);
            assert(stray_views(out@) =~= before.push(stray@));
        }
    }
    proof {
        assert(all.take(all.len() as int) =~= all);
    }
    let ghost kept = stray_views(out@);
    let mut more = working;
    let ghost extra = more@;
    out.append(&mut more);
    proof {
        assert(stray_views(out@) =~= kept + work);
        lemma_sorted_views(out@);
        lemma_one_per_path_map(
            by_path(out@, |x: Stray| x.at()),
            |x: Stray| x.at(),
            |s: Stray| s@,
            |s: StrayView| s.path,
        );
    }
    dedup_by_path(sort_by_path(out))
}

/// Every entry of a merged list comes from one of the two lists; at a path that
/// the worktree's list has, it is the worktree's. Every path of either list is
/// still there, and no path stands twice.
pub proof fn merging_keeps_every_path(committed: Seq<StrayView>, working: Seq<StrayView>)
    ensures
        forall|i: int|
            0 <= i < merged(committed, working).len() ==> {
                let s = #[trigger] merged(committed, working)[i];
                if claimed(working, s.path) {
                    working.contains(s)
                } else {
                    committed.contains(s)
                }
            },
        forall|p: Seq<char>|
            claimed(committed, p) || claimed(working, p) ==> #[trigger] claimed(
                merged(committed, working),
                p,
            ),
        forall|i: int, j: int|
            0 <= i < j < merged(committed, working).len() ==> path_less(
                (#[trigger] merged(committed, working)[i]).path,
                (#[trigger] merged(committed, working)[j]).path,
            ),
{
    let key = |s: StrayView| s.path;
    let p = |c: StrayView| !claimed(working, c.path);
    let kept = committed.filter(p);
    let list = either_list(committed, working);
    let sorted = by_path(list, key);
    let r = merged(committed, working);
    sorted_without_repeats(list, key);
    assert forall|i: int| 0 <= i < r.len() implies {
        let s = #[trigger] r[i];
        if claimed(working, s.path) {
            working.contains(s)
        } else {
            committed.contains(s)
        }
    } by {
        let s = r[i];
        assert(sorted.contains(s));
        sorting_keeps_items(list, key, s);
        let k = choose|k: int| 0 <= k < list.len() && list[k] == s;
        if k < kept.len() {
            assert(kept[k] == s);
            committed.lemma_filter_pred(p, k);
            committed.lemma_filter_contains_rev(p, s);
        } else {
            assert(working[k - kept.len()] == s);
        }
    }
    assert forall|q: Seq<char>| claimed(committed, q) || claimed(working, q) implies #[trigger] claimed(
        r,
        q,
    ) by {
        let x: StrayView = if claimed(working, q) {
            let i = choose|i: int| 0 <= i < working.len() && same_path((#[trigger] working[i]).path, q);
            assert(list[kept.len() + i] == working[i]);
            working[i]
        } else {
            let i = choose|i: int|
                0 <= i < committed.len() && same_path((#[trigger] committed[i]).path, q);
            let x = committed[i];
            assert(!claimed(working, x.path)) by {
                if claimed(working, x.path) {
                    let k = choose|k: int|
                        0 <= k < working.len() && same_path((#[trigger] working[k]).path, x.path);
                    assert(same_path(working[k].path, q));
                }
            }
            committed.lemma_filter_contains(p, i);
            let k = choose|k: int| 0 <= k < kept.len() && kept[k] == x;
            assert(list[k] == x);
            x
        };
        assert(list.contains(x));
        sorting_keeps_items(list, key, x);
        let i = choose|i: int| 0 <= i < sorted.len() && sorted[i] == x;
        repeats_keep_paths(sorted, key, i);
        let j = choose|j: int|
            0 <= j < one_per_path(sorted, key).len() && same_path(
                key(#[trigger] one_per_path(sorted, key)[j]),
                key(sorted[i]),
            );
        assert(same_path(r[j].path, q));
    }
}

/// The strays are listed in path order, which is what the tree assumes when it
/// groups them by directory: with what is inside the submodules folded in, and
/// with what was committed since the base.
pub proof fn strays_are_listed_in_path_order(
    entries: Seq<StrayView>,
    inside: Seq<(String, Checkout)>,
    committed: Seq<StrayView>,
    working: Seq<StrayView>,
)
    ensures
        in_path_order(
            expanded_views(by_path(entries, |s: StrayView| s.path), inside),
            |s: StrayView| s.path,
        ),
        in_path_order(merged(committed, working), |s: StrayView| s.path),
{
    let key = |s: StrayView| s.path;
    let list = by_path(entries, key);
    sorting_is_stable(entries, key);
    sorted_without_repeats(list + all_inside(list, inside), key);
    sorted_without_repeats(either_list(committed, working), key);
}

/// Every file that differs from `base`, committed or not.
///
/// `committed` is what `diff --name-status -z` against the base printed, and
/// `working` the worktree's own list. The ordinary view is the worktree's list
/// as it is: it reports things a diff cannot — submodule state among them. For
/// any other base the diff's list comes first and the worktree's is laid over
/// it, because "untracked" and "conflicted" say more than "modified" does.
pub fn list_strays_against(base: &Base, committed: &[u8], working: Vec<Stray>) -> (r: Vec<Stray>)
    ensures
        base is Head ==> r@ == working@,
        !(base is Head) ==> stray_views(r@) == merged(
            by_path(name_entries(full_records(committed@)), |s: StrayView| s.path),
            stray_views(working@),
        ),
{
    if base.is_head() {
        return working;
    }
    merge_lists(parse_name_status(committed), working)
}

/// Every file that strayed from HEAD: staged, unstaged and untracked, with what
/// is inside the submodules folded in.
///
/// `out` is what `status --porcelain=v2 -z --untracked-files=all` printed, and
/// `inside` what the same command printed in the submodules; see
/// [`crate::git::submodule`].
pub fn list_strays(out: &[u8], inside: &Vec<(String, Checkout)>) -> (r: Vec<Stray>)
    ensures
        stray_views(r@) == expanded_views(
            by_path(status_entries(nul_records(out@)), |s: StrayView| s.path),
            inside@,
        ),
{
    expanded(parse_status(out), inside)
}

} // verus!
