//! What a blame stream says, record by record.

use vstd::prelude::*;
use vstd::string::*;

use crate::git::blame::{
    blame_in, blame_is_capped, is_hex, known, looks_like_sha, put_line, read_line, read_lines, told,
    AttributionView, Reading,
};
use crate::seqs::{join_with, lemma_index_is, lemma_index_of, lemma_join_split};
use crate::text::reading::{is_line, lines_read_back, printed};
use crate::text::{decimal_of, decimal_reads_back, halves, i64_in, is_digit, lemma_decimal};

verus! {

/// A header field of a commit: its name, and its value where it has one.
pub ghost struct Field {
    pub name: Seq<char>,
    pub value: Option<Seq<char>>,
}

/// What a stream says of one line of the file.
pub ghost struct Record {
    /// The commit that last touched the line.
    pub sha: Seq<char>,
    /// Where the line stood in that commit.
    pub origin: Seq<char>,
    /// Where the line stands now, counted from 1.
    pub line: nat,
    /// What follows on the record's first line.
    pub more: Seq<Seq<char>>,
    /// What is said of the commit; nothing, where it was said before.
    pub fields: Seq<Field>,
    /// The line's own text.
    pub text: Seq<char>,
}

/// A field as it is printed.
pub open spec fn field_line(f: Field) -> Seq<char> {
    match f.value {
        Some(value) => f.name.push(' ') + value,
        None => f.name,
    }
}

/// A record as it is printed, line by line.
pub open spec fn record_lines(r: Record) -> Seq<Seq<char>> {
    seq![join_with(seq![r.sha, r.origin, decimal_of(r.line)] + r.more, seq![' '])]
        + r.fields.map_values(|f: Field| field_line(f)) + seq![seq!['\t'] + r.text]
}

/// Records as they are printed, line by line.
pub open spec fn stream(records: Seq<Record>) -> Seq<Seq<char>>
    decreases records.len(),
{
    if records.len() == 0 {
        Seq::empty()
    } else {
        stream(records.drop_last()) + record_lines(records.last())
    }
}

/// Whether a record is one that git prints: the sha is one, and the names and
/// numbers hold no space.
pub open spec fn well_formed(r: Record) -> bool {
    &&& r.sha.len() >= 7
    &&& forall|i: int| 0 <= i < r.sha.len() ==> is_hex(#[trigger] r.sha[i])
    &&& !r.origin.contains(' ')
    &&& forall|i: int| 0 <= i < r.more.len() ==> !(#[trigger] r.more[i]).contains(' ')
    &&& 0 < r.line <= usize::MAX
    &&& forall|i: int|
        0 <= i < r.fields.len() ==> !(#[trigger] r.fields[i]).name.contains(' ')
            && r.fields[i].name.len() > 0 && r.fields[i].name[0] != '\t'
}

/// The last value that a field of some name has, if any of them has one.
pub open spec fn last_value(fields: Seq<Field>, name: Seq<char>) -> Option<Seq<char>>
    decreases fields.len(),
{
    if fields.len() == 0 {
        None
    } else if fields.last().name == name && fields.last().value is Some {
        fields.last().value
    } else {
        last_value(fields.drop_last(), name)
    }
}

/// What the records say last of a commit under some name, whatever records of
/// other commits stand between.
pub open spec fn last_said(records: Seq<Record>, sha: Seq<char>, name: Seq<char>) -> Option<Seq<char>>
    decreases records.len(),
{
    if records.len() == 0 {
        None
    } else if records.last().sha == sha && last_value(records.last().fields, name) is Some {
        last_value(records.last().fields, name)
    } else {
        last_said(records.drop_last(), sha, name)
    }
}

/// Whether an attribution is what the records say of a commit.
pub open spec fn tells_of(a: AttributionView, records: Seq<Record>, sha: Seq<char>) -> bool {
    &&& a.commit == sha.take(7)
    &&& a.uncommitted == forall|i: int| 0 <= i < sha.len() ==> #[trigger] sha[i] == '0'
    &&& a.author == (match last_said(records, sha, "author"@) {
        Some(v) => v,
        None => Seq::empty(),
    })
    &&& a.summary == (match last_said(records, sha, "summary"@) {
        Some(v) => v,
        None => Seq::empty(),
    })
    &&& a.author_time == (match last_said(records, sha, "author-time"@) {
        Some(v) => match i64_in(v) {
            Some(n) => n,
            None => 0,
        },
        None => 0,
    })
}

/// Whether what is known of the lines of a file is what the records say: a line is
/// attributed by the last record that names it, with everything said of that
/// record's commit up to there, and nothing is known of a line that no record
/// names.
pub open spec fn says(lines: Seq<Option<AttributionView>>, records: Seq<Record>) -> bool {
    &&& forall|at: int|
        0 <= at < lines.len() ==> (match #[trigger] lines[at] {
            Some(a) => exists|k: int|
                0 <= k < records.len() && (#[trigger] records[k]).line == at + 1 && (forall|m: int|
                    k < m < records.len() ==> (#[trigger] records[m]).line != at + 1) && tells_of(
                    a,
                    records.take(k + 1),
                    records[k].sha,
                ),
            None => forall|k: int|
                0 <= k < records.len() ==> (#[trigger] records[k]).line != at + 1,
        })
    &&& forall|k: int|
        0 <= k < records.len() && (#[trigger] records[k]).line <= 50_000 ==> records[k].line
            <= lines.len()
}

/// The state after more lines.
spec fn after(r: Reading, lines: Seq<Seq<char>>) -> Reading
    decreases lines.len(),
{
    if lines.len() == 0 {
        r
    } else {
        read_line(after(r, lines.drop_last()), lines.last())
    }
}

proof fn lemma_after(a: Seq<Seq<char>>, b: Seq<Seq<char>>)
    ensures
        read_lines(a + b) == after(read_lines(a), b),
    decreases b.len(),
{
    if b.len() == 0 {
        assert(a + b =~= a);
    } else {
        assert((a + b).drop_last() =~= a + b.drop_last());
        lemma_after(a, b.drop_last());
    }
}

/// What is known of a commit once fields were read.
spec fn all_told(a: AttributionView, fields: Seq<Field>) -> AttributionView
    decreases fields.len(),
{
    if fields.len() == 0 {
        a
    } else {
        match fields.last().value {
            Some(v) => told(all_told(a, fields.drop_last()), fields.last().name, v),
            None => all_told(a, fields.drop_last()),
        }
    }
}

proof fn lemma_halves(name: Seq<char>, value: Seq<char>)
    requires
        !name.contains(' '),
    ensures
        halves(name.push(' ') + value, ' ') == Some((name, value)),
        halves(name, ' ') is None,
{
    let s = name.push(' ') + value;
    assert forall|j: int| 0 <= j < name.len() implies s[j] != ' ' by {
        assert(s[j] == name[j]);
    }
    lemma_index_is(s, ' ', name.len() as int);
    assert(s.take(name.len() as int) =~= name);
    assert(s.skip(name.len() as int + 1) =~= value);
    lemma_index_of(name, ' ');
    lemma_index_is(name, ' ', name.len() as int);
}

proof fn lemma_fields(r: Reading, sha: Seq<char>, fields: Seq<Field>)
    requires
        r.current == Some(sha),
        r.commits.contains_key(sha),
        forall|i: int|
            0 <= i < fields.len() ==> !(#[trigger] fields[i]).name.contains(' ')
                && fields[i].name.len() > 0 && fields[i].name[0] != '\t',
    ensures
        after(r, fields.map_values(|f: Field| field_line(f))) == (Reading {
            commits: r.commits.insert(sha, all_told(r.commits[sha], fields)),
            ..r
        }),
    decreases fields.len(),
{
    let lines = fields.map_values(|f: Field| field_line(f));
    if fields.len() == 0 {
        assert(r.commits.insert(sha, r.commits[sha]) =~= r.commits);
    } else {
        let front = fields.drop_last();
        assert(lines.drop_last() =~= front.map_values(|f: Field| field_line(f)));
        lemma_fields(r, sha, front);
        let f = fields.last();
        let line = lines.last();
        assert(fields[fields.len() - 1] == f);
        assert(line == field_line(f));
        assert(line[0] == f.name[0]);
        let now = after(r, lines.drop_last());
        match f.value {
            Some(v) => {
                lemma_halves(f.name, v);
                assert(now.commits.insert(sha, all_told(r.commits[sha], fields)) =~= r.commits.insert(
                    sha,
                    all_told(r.commits[sha], fields),
                ));
            },
            None => {
                lemma_halves(f.name, Seq::empty());
            },
        }
    }
}

/// What a whole record does to what has been read.
proof fn lemma_record(r: Reading, record: Record)
    requires
        r.current is None,
        well_formed(record),
    ensures
        ({
            let a = all_told(known(r.commits, record.sha), record.fields);
            after(r, record_lines(record)) == (Reading {
                commits: r.commits.insert(record.sha, a),
                lines: if record.line <= 50_000 {
                    put_line(r.lines, record.line - 1, a)
                } else {
                    r.lines
                },
                current: None,
                final_line: record.line,
            })
        }),
{
    let words = seq![record.sha, record.origin, decimal_of(record.line)] + record.more;
    let opening = join_with(words, seq![' ']);
    lemma_decimal(record.line);
    assert forall|k: int, j: int| 0 <= k < words.len() && 0 <= j < words[k].len() implies words[k][j]
        != ' ' by {
        if k == 0 {
            assert(is_hex(record.sha[j]));
        } else if k == 1 {
            assert(record.origin.contains(record.origin[j]));
        } else if k == 2 {
            assert(is_digit(decimal_of(record.line)[j]));
        } else {
            assert(words[k] == record.more[k - 3]);
            assert(!record.more[k - 3].contains(' '));
        }
    }
    lemma_join_split(words, ' ');
    decimal_reads_back(record.line);
    assert(words[0] == record.sha && words[2] == decimal_of(record.line));
    assert(looks_like_sha(record.sha));
    assert(opening[0] == record.sha[0]);
    assert(is_hex(record.sha[0]));
    let first = seq![opening];
    let fields = record.fields.map_values(|f: Field| field_line(f));
    let last = seq![seq!['\t'] + record.text];
    let all = record_lines(record);
    assert(all.drop_last() =~= first + fields);
    lemma_after_from(r, first, fields);
    assert(first.drop_last() =~= Seq::<Seq<char>>::empty());
    assert(after(r, first.drop_last()) == r);
    let opened = after(r, first);
    let k = known(r.commits, record.sha);
    assert(opened == (Reading {
        commits: r.commits.insert(record.sha, k),
        lines: r.lines,
        current: Some(record.sha),
        final_line: record.line,
    }));
    lemma_fields(opened, record.sha, record.fields);
    let a = all_told(k, record.fields);
    assert(opened.commits.insert(record.sha, a) =~= r.commits.insert(record.sha, a));
    assert(all.last() == last[0]);
    assert(last[0][0] == '\t');
}

proof fn lemma_after_from(r: Reading, a: Seq<Seq<char>>, b: Seq<Seq<char>>)
    ensures
        after(r, a + b) == after(after(r, a), b),
    decreases b.len(),
{
    if b.len() == 0 {
        assert(a + b =~= a);
    } else {
        assert((a + b).drop_last() =~= a + b.drop_last());
        lemma_after_from(r, a, b.drop_last());
    }
}

proof fn lemma_told(a: AttributionView, fields: Seq<Field>)
    ensures
        ({
            let t = all_told(a, fields);
            &&& t.commit == a.commit
            &&& t.uncommitted == a.uncommitted
            &&& t.author == (match last_value(fields, "author"@) {
                Some(v) => v,
                None => a.author,
            })
            &&& t.summary == (match last_value(fields, "summary"@) {
                Some(v) => v,
                None => a.summary,
            })
            &&& t.author_time == (match last_value(fields, "author-time"@) {
                Some(v) => match i64_in(v) {
                    Some(n) => n,
                    None => 0,
                },
                None => a.author_time,
            })
        }),
    decreases fields.len(),
{
    reveal_strlit("author");
    reveal_strlit("summary");
    reveal_strlit("author-time");
    assert("author"@[0] != "summary"@[0]);
    assert("author"@.len() != "author-time"@.len());
    assert("summary"@.len() != "author-time"@.len());
    if fields.len() > 0 {
        lemma_told(a, fields.drop_last());
    }
}

proof fn lemma_stream(records: Seq<Record>)
    requires
        forall|i: int| 0 <= i < records.len() ==> well_formed(#[trigger] records[i]),
    ensures
        read_lines(stream(records)).current is None,
        forall|sha: Seq<char>|
            sha.len() >= 7 ==> tells_of(
                #[trigger] known(read_lines(stream(records)).commits, sha),
                records,
                sha,
            ),
        says(read_lines(stream(records)).lines, records),
    decreases records.len(),
{
    if records.len() == 0 {
        assert forall|sha: Seq<char>| sha.len() >= 7 implies tells_of(
            #[trigger] known(read_lines(stream(records)).commits, sha),
            records,
            sha,
        ) by {
            if sha.len() == 7 {
                assert(sha.take(7) =~= sha);
            }
        }
    } else {
        let front = records.drop_last();
        let record = records.last();
        assert forall|i: int| 0 <= i < front.len() implies well_formed(#[trigger] front[i]) by {
            assert(well_formed(records[i]));
        }
        assert(well_formed(records[records.len() - 1]));
        lemma_stream(front);
        let was = read_lines(stream(front));
        lemma_after(stream(front), record_lines(record));
        lemma_record(was, record);
        let now = read_lines(stream(records));
        let k = known(was.commits, record.sha);
        let a = all_told(k, record.fields);
        lemma_told(k, record.fields);
        assert(tells_of(k, front, record.sha));
        assert(tells_of(a, records, record.sha));
        assert forall|sha: Seq<char>| sha.len() >= 7 implies tells_of(
            #[trigger] known(now.commits, sha),
            records,
            sha,
        ) by {
            if sha != record.sha {
                assert(known(now.commits, sha) == known(was.commits, sha));
                assert(tells_of(known(was.commits, sha), front, sha));
            }
        }
        blame_is_capped(stream(front));
        assert(records =~= front.push(record));
        lemma_says(was.lines, front, record, a);
    }
}

proof fn lemma_says(lines: Seq<Option<AttributionView>>, front: Seq<Record>, record: Record, a: AttributionView)
    requires
        says(lines, front),
        record.line > 0,
        tells_of(a, front.push(record), record.sha),
        lines.len() <= 50_000,
    ensures
        says(
            if record.line <= 50_000 {
                put_line(lines, record.line - 1, a)
            } else {
                lines
            },
            front.push(record),
        ),
{
    let records = front.push(record);
    let n = front.len() as int;
    let next = if record.line <= 50_000 {
        put_line(lines, record.line - 1, a)
    } else {
        lines
    };
    assert forall|at: int| 0 <= at < next.len() implies (match #[trigger] next[at] {
        Some(a) => exists|k: int|
            0 <= k < records.len() && (#[trigger] records[k]).line == at + 1 && (forall|m: int|
                k < m < records.len() ==> (#[trigger] records[m]).line != at + 1) && tells_of(
                a,
                records.take(k + 1),
                records[k].sha,
            ),
        None => forall|k: int| 0 <= k < records.len() ==> (#[trigger] records[k]).line != at + 1,
    }) by {
        if at == record.line - 1 {
            assert(records.take(n + 1) =~= records);
            assert(records[n].line == at + 1);
        } else if at < lines.len() {
            assert(next[at] == lines[at]);
            match lines[at] {
                Some(b) => {
                    let k = choose|k: int|
                        0 <= k < front.len() && (#[trigger] front[k]).line == at + 1 && (forall|
                            m: int,
                        |
                            k < m < front.len() ==> (#[trigger] front[m]).line != at + 1)
                            && tells_of(b, front.take(k + 1), front[k].sha);
                    assert(records.take(k + 1) =~= front.take(k + 1));
                    assert(records[k] == front[k]);
                    assert forall|m: int| k < m < records.len() implies (
                    #[trigger] records[m]).line != at + 1 by {
                        if m < n {
                            assert(records[m] == front[m]);
                        }
                    }
                },
                None => {
                    assert forall|k: int| 0 <= k < records.len() implies (
                    #[trigger] records[k]).line != at + 1 by {
                        if k < n {
                            assert(records[k] == front[k]);
                        }
                    }
                },
            }
        } else {
            assert forall|k: int| 0 <= k < records.len() implies (#[trigger] records[k]).line != at
                + 1 by {
                if k < n {
                    assert(records[k] == front[k]);
                    assert(front[k].line <= 50_000 ==> front[k].line <= lines.len());
                }
            }
        }
    }
    assert forall|k: int| 0 <= k < records.len() && (#[trigger] records[k]).line
        <= 50_000 implies records[k].line <= next.len() by {
        if k < n {
            assert(records[k] == front[k]);
        }
    }
}

/// Every line of a file is attributed to the commit of the last record that names
/// it, and with everything that was said of that commit up to there: what is said
/// once of a commit holds of all its later lines, whatever other commits stand
/// between. Nothing is known of a line that no record names.
pub proof fn records_are_read_back(records: Seq<Record>)
    requires
        forall|i: int| 0 <= i < records.len() ==> well_formed(#[trigger] records[i]),
        forall|i: int| 0 <= i < stream(records).len() ==> is_line(#[trigger] stream(records)[i]),
    ensures
        says(blame_in(printed(stream(records))), records),
{
    lines_read_back(stream(records));
    lemma_stream(records);
}

} // verus!
