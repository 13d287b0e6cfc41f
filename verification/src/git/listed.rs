//! What git's lists of commits, branches and stashes say, entry by entry.

use vstd::prelude::*;
use vstd::string::*;

use crate::bytes::field_text;
use crate::git::branch::{
    branches_in, count_in, drift, drift_from, track_in, BranchView,
};
use crate::git::graph::{behind_last, row_in, rows_in, RowView};
use crate::git::history::{entries_in, time_in, EntryView};
use crate::git::stash::{behind_branch, message_in, stashes_in, StashView};
use crate::git::status::records::ended;
use crate::model::Upstream;
use crate::seqs::{join_with, lemma_index_is, lemma_index_of, lemma_join_split, split_on};
use crate::text::reading::{
    blank, trimming_leaves_the_middle, trimming_takes_only_white_space,
};
use crate::text::{
    after_prefix, decimal_of, decimal_reads_back, first_at, has_text, is_digit,
    is_space, lemma_decimal, lemma_first_at, occurs_at, trim_front, trimmed, trimmed_end,
};

verus! {

/// Fields that were printed are split where they end, and what follows the last is
/// a field of its own.
pub proof fn ended_fields_are_split(fields: Seq<Seq<u8>>, tail: Seq<u8>)
    requires
        forall|i: int| 0 <= i < fields.len() ==> !(#[trigger] fields[i]).contains(0u8),
        !tail.contains(0u8),
    ensures
        split_on(ended(fields) + tail, 0u8) == fields.push(tail),
    decreases fields.len(),
{
    let buf = ended(fields) + tail;
    if fields.len() == 0 {
        assert(buf =~= tail);
        assert forall|j: int| 0 <= j < tail.len() implies tail[j] != 0u8 by {
            assert(tail.contains(tail[j]));
        }
        lemma_index_is(tail, 0u8, tail.len() as int);
        assert(split_on(tail, 0u8) =~= fields.push(tail));
    } else {
        let first = fields[0];
        let rest = fields.skip(1);
        assert forall|i: int| 0 <= i < rest.len() implies !(#[trigger] rest[i]).contains(0u8) by {
            assert(!fields[i + 1].contains(0u8));
        }
        ended_fields_are_split(rest, tail);
        assert forall|j: int| 0 <= j < first.len() implies buf[j] != 0u8 by {
            assert(buf[j] == first[j]);
            assert(first.contains(first[j]));
        }
        lemma_index_is(buf, 0u8, first.len() as int);
        assert(buf.take(first.len() as int) =~= first);
        assert(buf.skip(first.len() as int + 1) =~= ended(rest) + tail);
        assert(split_on(buf, 0u8) =~= fields.push(tail));
    }
}

/// A commit as the log prints it.
pub ghost struct Commit {
    pub commit: Seq<u8>,
    pub short: Seq<u8>,
    pub author: Seq<u8>,
    pub time: Seq<u8>,
    pub subject: Seq<u8>,
}

/// The fields that commits are printed as.
pub open spec fn commit_fields(commits: Seq<Commit>) -> Seq<Seq<u8>>
    decreases commits.len(),
{
    if commits.len() == 0 {
        Seq::empty()
    } else {
        let c = commits[0];
        seq![c.commit, c.short, c.author, c.time, c.subject] + commit_fields(commits.skip(1))
    }
}

/// What is listed of some commits: each of them that has a name, in their order.
pub open spec fn commits_listed(commits: Seq<Commit>) -> Seq<EntryView>
    decreases commits.len(),
{
    if commits.len() == 0 {
        Seq::empty()
    } else {
        let c = commits[0];
        (if field_text(c.commit).len() == 0 {
            Seq::empty()
        } else {
            seq![
                EntryView {
                    commit: field_text(c.commit),
                    short: field_text(c.short),
                    author: field_text(c.author),
                    author_time: time_in(field_text(c.time)),
                    subject: field_text(c.subject),
                },
            ]
        }) + commits_listed(commits.skip(1))
    }
}

/// Every commit that the log prints is listed with what is printed of it, in the
/// order of the log.
pub proof fn every_commit_is_listed(commits: Seq<Commit>, tail: Seq<u8>)
    requires
        forall|i: int|
            0 <= i < commit_fields(commits).len() ==> !(#[trigger] commit_fields(
                commits,
            )[i]).contains(0u8),
        !tail.contains(0u8),
    ensures
        entries_in(split_on(ended(commit_fields(commits)) + tail, 0u8)) == commits_listed(commits),
{
    ended_fields_are_split(commit_fields(commits), tail);
    lemma_commits(commits, tail);
}

proof fn lemma_commits(commits: Seq<Commit>, tail: Seq<u8>)
    ensures
        entries_in(commit_fields(commits).push(tail)) == commits_listed(commits),
    decreases commits.len(),
{
    let fields = commit_fields(commits).push(tail);
    if commits.len() > 0 {
        let c = commits[0];
        let rest = commits.skip(1);
        lemma_commits(rest, tail);
        let own = seq![c.commit, c.short, c.author, c.time, c.subject];
        assert(fields.skip(5) =~= commit_fields(rest).push(tail));
        assert forall|k: int| 0 <= k < 5 implies fields[k] == own[k] by {}
        assert(fields[0] == c.commit && fields[1] == c.short && fields[2] == c.author && fields[3]
            == c.time && fields[4] == c.subject);
        assert(entries_in(fields) =~= commits_listed(commits));
    } else {
        assert(entries_in(fields) =~= commits_listed(commits));
    }
}

/// A stash as git lists it.
pub ghost struct Stashed {
    pub selector: Seq<u8>,
    pub commit: Seq<u8>,
    pub short: Seq<u8>,
    pub author: Seq<u8>,
    pub time: Seq<u8>,
    pub subject: Seq<u8>,
}

/// The fields that stashes are printed as.
pub open spec fn stash_fields(stashes: Seq<Stashed>) -> Seq<Seq<u8>>
    decreases stashes.len(),
{
    if stashes.len() == 0 {
        Seq::empty()
    } else {
        let s = stashes[0];
        seq![s.selector, s.commit, s.short, s.author, s.time, s.subject] + stash_fields(
            stashes.skip(1),
        )
    }
}

/// What is listed of some stashes: each of them that can be named, in their order.
pub open spec fn stashes_listed(stashes: Seq<Stashed>) -> Seq<StashView>
    decreases stashes.len(),
{
    if stashes.len() == 0 {
        Seq::empty()
    } else {
        let s = stashes[0];
        (if field_text(s.selector).len() == 0 {
            Seq::empty()
        } else {
            seq![
                StashView {
                    selector: field_text(s.selector),
                    commit: field_text(s.commit),
                    short: field_text(s.short),
                    author: field_text(s.author),
                    author_time: time_in(field_text(s.time)),
                    message: message_in(field_text(s.subject)),
                },
            ]
        }) + stashes_listed(stashes.skip(1))
    }
}

/// Every stash that git prints is listed with what is printed of it, in its order.
pub proof fn every_stash_is_listed(stashes: Seq<Stashed>, tail: Seq<u8>)
    requires
        forall|i: int|
            0 <= i < stash_fields(stashes).len() ==> !(#[trigger] stash_fields(
                stashes,
            )[i]).contains(0u8),
        !tail.contains(0u8),
    ensures
        stashes_in(split_on(ended(stash_fields(stashes)) + tail, 0u8)) == stashes_listed(stashes),
{
    ended_fields_are_split(stash_fields(stashes), tail);
    lemma_stashes(stashes, tail);
}

proof fn lemma_stashes(stashes: Seq<Stashed>, tail: Seq<u8>)
    ensures
        stashes_in(stash_fields(stashes).push(tail)) == stashes_listed(stashes),
    decreases stashes.len(),
{
    let fields = stash_fields(stashes).push(tail);
    if stashes.len() > 0 {
        let s = stashes[0];
        let rest = stashes.skip(1);
        lemma_stashes(rest, tail);
        assert(fields.skip(6) =~= stash_fields(rest).push(tail));
        assert(fields[0] == s.selector && fields[1] == s.commit && fields[2] == s.short && fields[3]
            == s.author && fields[4] == s.time && fields[5] == s.subject);
        assert(stashes_in(fields) =~= stashes_listed(stashes));
    } else {
        assert(stashes_in(fields) =~= stashes_listed(stashes));
    }
}

/// A stash is called by the message that was given it: without the branch that git
/// puts before it, which ends at the first colon and space, and with every later
/// one. A subject that git put nothing before is the message.
pub proof fn a_stash_is_called_by_its_message(branch: Seq<char>, message: Seq<char>)
    requires
        !has_text(branch.push(':'), ": "@),
    ensures
        message_in("On "@ + branch + ": "@ + message) == message,
        message_in("WIP on "@ + branch + ": "@ + message) == message,
        !"On "@.is_prefix_of(message) && !"WIP on "@.is_prefix_of(message) ==> message_in(message)
            == message,
{
    lemma_behind("On "@, branch, message);
    lemma_behind("WIP on "@, branch, message);
    let on = "On "@ + branch + ": "@ + message;
    assert(!"WIP on "@.is_prefix_of(on)) by {
        reveal_strlit("On ");
        reveal_strlit("WIP on ");
        if "WIP on "@.is_prefix_of(on) {
            assert(on.subrange(0, 7)[0] == on[0]);
            assert(on[0] == 'O');
        }
    }
}

proof fn lemma_behind(prefix: Seq<char>, branch: Seq<char>, message: Seq<char>)
    requires
        !has_text(branch.push(':'), ": "@),
    ensures
        behind_branch(prefix + branch + ": "@ + message, prefix) == Some(message),
{
    reveal_strlit(": ");
    let mark = ": "@;
    let subject = prefix + branch + mark + message;
    let rest = branch + mark + message;
    assert(subject.subrange(0, prefix.len() as int) =~= prefix);
    assert(subject.skip(prefix.len() as int) =~= rest);
    let n = branch.len() as int;
    assert(rest.subrange(n, n + 2) =~= mark);
    assert(occurs_at(rest, mark, n));
    let head = branch.push(':');
    assert forall|j: int| 0 <= j < n implies !occurs_at(rest, mark, j) by {
        if occurs_at(rest, mark, j) {
            assert(head.subrange(j, j + 2) =~= rest.subrange(j, j + 2));
            assert(occurs_at(head, mark, j));
        }
    }
    lemma_first_at(rest, mark, 0);
    assert(first_at(rest, mark, 0) == Some(n));
    assert(rest.skip(n + 2) =~= message);
}

/// A branch as git lists it.
pub ghost struct Listed {
    pub name: Seq<u8>,
    pub short: Seq<u8>,
    pub author: Seq<u8>,
    pub time: Seq<u8>,
    pub upstream: Seq<u8>,
    pub track: Seq<u8>,
    pub head: Seq<u8>,
    pub subject: Seq<u8>,
}

/// The fields that branches are printed as.
pub open spec fn branch_fields(branches: Seq<Listed>) -> Seq<Seq<u8>>
    decreases branches.len(),
{
    if branches.len() == 0 {
        Seq::empty()
    } else {
        let b = branches[0];
        seq![b.name, b.short, b.author, b.time, b.upstream, b.track, b.head, b.subject]
            + branch_fields(branches.skip(1))
    }
}

/// What is listed of some branches: each of them that has a name, in their order.
/// The one that is checked out is the one with a star.
pub open spec fn branches_listed(branches: Seq<Listed>) -> Seq<BranchView>
    decreases branches.len(),
{
    if branches.len() == 0 {
        Seq::empty()
    } else {
        let b = branches[0];
        (if field_text(b.name).len() == 0 {
            Seq::empty()
        } else {
            seq![
                BranchView {
                    name: field_text(b.name),
                    short: field_text(b.short),
                    author: field_text(b.author),
                    committed: time_in(field_text(b.time)),
                    upstream: if field_text(b.upstream).len() == 0 {
                        None
                    } else {
                        Some(field_text(b.upstream))
                    },
                    track: drift_from(field_text(b.upstream), field_text(b.track)),
                    current: field_text(b.head) == "*"@,
                    subject: field_text(b.subject),
                },
            ]
        }) + branches_listed(branches.skip(1))
    }
}

/// Every branch that git prints is listed with what is printed of it, in its
/// order.
pub proof fn every_branch_is_listed(branches: Seq<Listed>, tail: Seq<u8>)
    requires
        forall|i: int|
            0 <= i < branch_fields(branches).len() ==> !(#[trigger] branch_fields(
                branches,
            )[i]).contains(0u8),
        !tail.contains(0u8),
    ensures
        branches_in(split_on(ended(branch_fields(branches)) + tail, 0u8)) == branches_listed(
            branches,
        ),
{
    ended_fields_are_split(branch_fields(branches), tail);
    lemma_branches(branches, tail);
}

proof fn lemma_branches(branches: Seq<Listed>, tail: Seq<u8>)
    ensures
        branches_in(branch_fields(branches).push(tail)) == branches_listed(branches),
    decreases branches.len(),
{
    let fields = branch_fields(branches).push(tail);
    if branches.len() > 0 {
        let b = branches[0];
        let rest = branches.skip(1);
        lemma_branches(rest, tail);
        assert(fields.skip(8) =~= branch_fields(rest).push(tail));
        assert(fields[0] == b.name && fields[1] == b.short && fields[2] == b.author && fields[3]
            == b.time && fields[4] == b.upstream && fields[5] == b.track && fields[6] == b.head
            && fields[7] == b.subject);
        assert(branches_in(fields) =~= branches_listed(branches));
    } else {
        assert(branches_in(fields) =~= branches_listed(branches));
    }
}

proof fn lemma_counted(n: nat)
    requires
        n <= usize::MAX,
    ensures
        count_in(decimal_of(n)) == n,
        trimmed(decimal_of(n)) == decimal_of(n),
{
    let d = decimal_of(n);
    lemma_decimal(n);
    decimal_reads_back(n);
    assert(is_digit(d[0]) && is_digit(d[d.len() - 1]));
    assert(Seq::<char>::empty() + d + Seq::<char>::empty() =~= d);
    trimming_takes_only_white_space(Seq::empty(), d, Seq::empty());
}

/// How far a branch is ahead of its upstream and how far behind is read off the
/// words that git puts before the counts; a side that it does not name is level,
/// and an upstream that is gone is level on both.
pub proof fn the_words_say_which_way_a_branch_drifted(ahead: usize, behind: usize)
    ensures
        track_in(
            seq!['['] + ("ahead "@ + decimal_of(ahead as nat)) + seq![',', ' '] + ("behind "@
                + decimal_of(behind as nat)) + seq![']'],
        ) == Some(Upstream { ahead, behind }),
        track_in(seq!['['] + ("ahead "@ + decimal_of(ahead as nat)) + seq![']']) == Some(
            Upstream { ahead, behind: 0 },
        ),
        track_in(seq!['['] + ("behind "@ + decimal_of(behind as nat)) + seq![']']) == Some(
            Upstream { ahead: 0, behind },
        ),
        track_in("[gone]"@) == Some(Upstream { ahead: 0, behind: 0 }),
{
    let a = "ahead "@ + decimal_of(ahead as nat);
    let b = "behind "@ + decimal_of(behind as nat);
    let spaced = seq![' '] + b;
    let gone = seq!['g', 'o', 'n', 'e'];
    lemma_side("ahead "@, ahead as nat);
    lemma_side("behind "@, behind as nat);
    assert forall|j: int| 0 <= j < spaced.len() implies spaced[j] != ',' by {
        if j > 0 {
            assert(spaced[j] == b[j - 1]);
        }
    }
    lemma_two_parts(a, spaced);
    lemma_one_part(a);
    lemma_one_part(b);
    lemma_one_part(gone);
    lemma_drifts(a, spaced, seq![a], seq![b], seq![gone], ahead, behind);
    assert(seq!['['] + a + seq![',', ' '] + b + seq![']'] =~= seq!['['] + (a + seq![','] + spaced)
        + seq![']']);
    reveal_strlit("[gone]");
    assert("[gone]"@ =~= seq!['['] + gone + seq![']']);
}

proof fn lemma_one_part(a: Seq<char>)
    requires
        forall|j: int| 0 <= j < a.len() ==> a[j] != ',',
    ensures
        track_in(seq!['['] + a + seq![']']) == Some(drift(seq![a])),
{
    let parts = seq![a];
    assert(join_with(parts, seq![',']) == a);
    lemma_join_split(parts, ',');
    lemma_bracketed(a);
}

proof fn lemma_two_parts(a: Seq<char>, b: Seq<char>)
    requires
        forall|j: int| 0 <= j < a.len() ==> a[j] != ',',
        forall|j: int| 0 <= j < b.len() ==> b[j] != ',',
    ensures
        track_in(seq!['['] + (a + seq![','] + b) + seq![']']) == Some(drift(seq![a, b])),
{
    let parts = seq![a, b];
    assert(parts.skip(1) =~= seq![b]);
    assert(join_with(parts.skip(1), seq![',']) == b);
    assert(join_with(parts, seq![',']) == a + seq![','] + b);
    lemma_join_split(parts, ',');
    lemma_bracketed(a + seq![','] + b);
}

proof fn lemma_drifts(
    a: Seq<char>,
    spaced: Seq<char>,
    just_a: Seq<Seq<char>>,
    just_b: Seq<Seq<char>>,
    just_gone: Seq<Seq<char>>,
    ahead: usize,
    behind: usize,
)
    requires
        a == "ahead "@ + decimal_of(ahead as nat),
        spaced == seq![' '] + ("behind "@ + decimal_of(behind as nat)),
        just_a == seq![a],
        just_b == seq!["behind "@ + decimal_of(behind as nat)],
        just_gone == seq![seq!['g', 'o', 'n', 'e']],
    ensures
        drift(seq![a, spaced]) == (Upstream { ahead, behind }),
        drift(just_a) == (Upstream { ahead, behind: 0 }),
        drift(just_b) == (Upstream { ahead: 0, behind }),
        drift(just_gone) == (Upstream { ahead: 0, behind: 0 }),
{
    let b = "behind "@ + decimal_of(behind as nat);
    let gone = seq!['g', 'o', 'n', 'e'];
    lemma_side("ahead "@, ahead as nat);
    lemma_side("behind "@, behind as nat);
    lemma_counted(ahead as nat);
    lemma_counted(behind as nat);
    reveal_strlit("ahead ");
    reveal_strlit("behind ");
    trimming_takes_only_white_space(seq![' '], b, Seq::empty());
    assert(seq![' '] + b + Seq::<char>::empty() =~= spaced);
    trimming_takes_only_white_space(Seq::empty(), gone, Seq::empty());
    assert(Seq::<char>::empty() + gone + Seq::<char>::empty() =~= gone);
    assert(!"ahead "@.is_prefix_of(b)) by {
        if "ahead "@.is_prefix_of(b) {
            assert(b.subrange(0, 6)[0] == b[0]);
        }
    }
    assert(seq![a, spaced].drop_last() =~= seq![a]);
    assert(seq![a].drop_last() =~= Seq::<Seq<char>>::empty());
    assert(just_b.drop_last() =~= Seq::<Seq<char>>::empty());
    assert(just_gone.drop_last() =~= Seq::<Seq<char>>::empty());
    assert(drift(Seq::<Seq<char>>::empty()) == (Upstream {
        ahead: 0,
        behind: 0,
    }));
    assert(seq![a, spaced].last() == spaced);
    assert(seq![a].last() == a);
    assert(drift(seq![a]) == (Upstream { ahead, behind: 0 }));
    assert(trimmed(spaced) == b);
    assert(after_prefix(b, "ahead "@) is None);
    assert(after_prefix(b, "behind "@) == Some(decimal_of(behind as nat)));
}

proof fn lemma_side(word: Seq<char>, n: nat)
    requires
        word == "ahead "@ || word == "behind "@,
    ensures
        trimmed(word + decimal_of(n)) == word + decimal_of(n),
        after_prefix(word + decimal_of(n), word) == Some(decimal_of(n)),
        forall|j: int|
            0 <= j < (word + decimal_of(n)).len() ==> #[trigger] (word + decimal_of(n))[j] != ',',
{
    reveal_strlit("ahead ");
    reveal_strlit("behind ");
    let d = decimal_of(n);
    let s = word + d;
    lemma_decimal(n);
    assert(is_digit(d[d.len() - 1]));
    assert(s.last() == d[d.len() - 1]);
    assert(Seq::<char>::empty() + s + Seq::<char>::empty() =~= s);
    trimming_takes_only_white_space(Seq::empty(), s, Seq::empty());
    assert(s.subrange(0, word.len() as int) =~= word);
    assert(s.skip(word.len() as int) =~= d);
    assert forall|j: int| 0 <= j < s.len() implies #[trigger] s[j] != ',' by {
        if j >= word.len() {
            assert(s[j] == d[j - word.len()]);
            assert(is_digit(d[j - word.len()]));
        }
    }
}

proof fn lemma_bracketed(inner: Seq<char>)
    ensures
        track_in(seq!['['] + inner + seq![']']) == Some(
            drift(split_on(inner, ',')),
        ),
{
    let s = seq!['['] + inner + seq![']'];
    assert(Seq::<char>::empty() + s + Seq::<char>::empty() =~= s);
    trimming_takes_only_white_space(Seq::empty(), s, Seq::empty());
    assert(s.subrange(0, 1) =~= seq!['[']);
    let rest = s.skip(1);
    assert(rest =~= inner + seq![']']);
    assert(rest.subrange(inner.len() as int, rest.len() as int) =~= seq![']']);
    assert(rest.take(rest.len() - 1) =~= inner);
}

/// A commit's line of a drawing shows the drawing, the commit and its fields as
/// they are printed.
pub proof fn a_commit_is_drawn_with_its_fields(
    rail: Seq<char>,
    commit: Seq<char>,
    short: Seq<char>,
    author: Seq<char>,
    time: Seq<char>,
    subject: Seq<char>,
)
    requires
        rail.len() > 0 ==> rail.last() == ' ',
        !rail.contains('\0'),
        !commit.contains('\0') && !commit.contains(' '),
        short.len() > 0 && !short.contains('\0'),
        !author.contains('\0') && !time.contains('\0') && !subject.contains('\0'),
    ensures
        row_in(
            rail + commit + seq!['\0'] + join_with(seq![short, author, time, subject], seq!['\0']),
        ) == Some(
            RowView::Commit {
                rail,
                commit,
                short,
                author,
                author_time: time_in(time),
                subject,
            },
        ),
{
    let fields = seq![short, author, time, subject];
    let rest = join_with(fields, seq!['\0']);
    let before = rail + commit;
    let line = before + seq!['\0'] + rest;
    assert forall|j: int| 0 <= j < before.len() implies line[j] != '\0' by {
        if j < rail.len() {
            assert(line[j] == rail[j]);
            assert(rail.contains(rail[j]));
        } else {
            assert(line[j] == commit[j - rail.len()]);
            assert(commit.contains(commit[j - rail.len()]));
        }
    }
    lemma_index_is(line, '\0', before.len() as int);
    assert(line.take(before.len() as int) =~= before);
    lemma_behind_last(rail, commit);
    assert(before.take(rail.len() as int) =~= rail);
    assert(before.skip(rail.len() as int) =~= commit);
    let p = |c: char| c == '\0';
    let tail = line.skip(before.len() as int);
    assert(tail =~= seq!['\0'] + rest);
    assert(tail.skip(1) =~= rest);
    assert(rest == short + seq!['\0'] + join_with(fields.skip(1), seq!['\0']));
    assert(rest[0] == short[0]);
    assert(short.contains(short[0]));
    assert(trim_front(rest, p) == rest);
    assert(trim_front(tail, p) == rest);
    assert forall|k: int, j: int| 0 <= k < fields.len() && 0 <= j < fields[k].len() implies fields[k][j]
        != '\0' by {
        assert(fields[k].contains(fields[k][j]));
    }
    lemma_join_split(fields, '\0');
}

proof fn lemma_behind_last(rail: Seq<char>, commit: Seq<char>)
    requires
        rail.len() > 0 ==> rail.last() == ' ',
        !commit.contains(' '),
    ensures
        behind_last(rail + commit, ' ') == rail.len(),
    decreases commit.len(),
{
    let s = rail + commit;
    if commit.len() == 0 {
        assert(s =~= rail);
    } else {
        assert(commit.contains(commit[commit.len() - 1]));
        assert(s.last() == commit.last());
        assert(s.drop_last() =~= rail + commit.drop_last());
        assert forall|c: char| commit.drop_last().contains(c) implies commit.contains(c) by {
            let k = commit.drop_last().index_of(c);
            assert(commit[k] == c);
        }
        lemma_behind_last(rail, commit.drop_last());
    }
}

/// A line of a drawing without a commit is drawn as it is, up to the white space at
/// its end, and not at all where there is nothing on it; and lines are drawn one
/// after another.
pub proof fn every_line_is_drawn(a: Seq<Seq<char>>, b: Seq<Seq<char>>, line: Seq<char>)
    ensures
        !line.contains('\0') && blank(line) ==> row_in(line) is None,
        !line.contains('\0') && !blank(line) ==> (row_in(line) matches Some(
            RowView::Connector { rail },
        ) && rail.is_prefix_of(line) && blank(line.skip(rail.len() as int))),
        line.contains('\0') ==> row_in(line) matches Some(RowView::Commit { .. }),
        rows_in(seq![line]).len() == (if row_in(line) is Some {
            1nat
        } else {
            0nat
        }),
        row_in(line) matches Some(row) ==> rows_in(seq![line]) == seq![row],
        rows_in(a + b) == rows_in(a) + rows_in(b),
    decreases a.len(),
{
    lemma_index_of(line, '\0');
    if line.contains('\0') {
        let k = line.index_of('\0');
        assert(line[k] == '\0');
    }
    lemma_trimmed_end(line);
    trimming_leaves_the_middle(trimmed_end(line));
    assert(seq![line].skip(1) =~= Seq::<Seq<char>>::empty());
    assert(rows_in(seq![line].skip(1)) =~= Seq::<RowView>::empty());
    if let Some(row) = row_in(line) {
        assert(rows_in(seq![line]) =~= seq![row]);
    }
    if a.len() == 0 {
        assert(a + b =~= b);
        assert(rows_in(a + b) =~= rows_in(a) + rows_in(b));
    } else {
        assert((a + b).skip(1) =~= a.skip(1) + b);
        assert((a + b)[0] == a[0]);
        every_line_is_drawn(a.skip(1), b, line);
        assert(rows_in(a + b) =~= rows_in(a) + rows_in(b));
    }
}

proof fn lemma_trimmed_end(s: Seq<char>)
    ensures
        trimmed_end(s).is_prefix_of(s),
        blank(s.skip(trimmed_end(s).len() as int)),
        trimmed_end(s).len() > 0 ==> !is_space(trimmed_end(s).last()),
        blank(trimmed_end(s)) <==> blank(s),
    decreases s.len(),
{
    let t = trimmed_end(s);
    if s.len() > 0 && is_space(s.last()) {
        let front = s.drop_last();
        lemma_trimmed_end(front);
        assert(t == trimmed_end(front));
        assert(front.subrange(0, t.len() as int) =~= s.subrange(0, t.len() as int));
        let rest = s.skip(t.len() as int);
        assert forall|i: int| 0 <= i < rest.len() implies is_space(#[trigger] rest[i]) by {
            if i < rest.len() - 1 {
                assert(rest[i] == front.skip(t.len() as int)[i]);
            } else {
                assert(rest[i] == s.last());
            }
        }
        assert(blank(s) <==> blank(front)) by {
            if blank(s) {
                assert forall|i: int| 0 <= i < front.len() implies is_space(#[trigger] front[i]) by {
                    assert(front[i] == s[i]);
                }
            }
            if blank(front) {
                assert forall|i: int| 0 <= i < s.len() implies is_space(#[trigger] s[i]) by {
                    if i < front.len() {
                        assert(s[i] == front[i]);
                    }
                }
            }
        }
    } else {
        assert(t == s);
        assert(s.subrange(0, s.len() as int) =~= s);
        assert(s.skip(s.len() as int) =~= Seq::<char>::empty());
    }
}

} // verus!
