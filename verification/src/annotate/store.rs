//! Keeping annotations on disk between sessions.
//!
//! # Where
//!
//! `$XDG_STATE_HOME/herdr-strays/`, falling back to `~/.local/state/`. Outside
//! the repository on purpose: notes are one commenter's working memory, not a
//! shared artefact, and a file written into the worktree would show up as a
//! stray in the very list it was written from.
//!
//! # Format
//!
//! One record per line, tab-separated: `line<TAB>hash<TAB>kind<TAB>path<TAB>text`.
//!
//! Paths and text are escaped so a tab or a newline in either cannot break the
//! record apart. Nothing here is executed or interpreted — it is read back as
//! data and rendered.

use std::collections::hash_map::DefaultHasher;
use std::hash::Hasher;

use vstd::prelude::*;
use vstd::string::*;

use crate::annotate::{
    kind_in, kind_word, kind_words_read_back, note_views, Anchor, Annotation, Annotations, Kind,
    NoteView,
};
use crate::paths::{
    file_name, file_name_of, is_rooted, join_paths, joined, lemma_file_name_unbroken,
};
use crate::seqs::{join_with, lemma_index_is, lemma_join_split, split_on};
use crate::text::{
    alphanumeric, chars_of, decimal, decimal_of, decimal_reads_back, hex, hex_of, hex_reach, join,
    lemma_hex_distinct, lemma_hex_len, lines, lines_of, nat_upto, parse_u32, parse_upto, split,
    text_of, texts, without_return,
};

verus! {

/// Why notes could not be kept.
#[derive(Debug, PartialEq, Eq)]
pub enum StoreError {
    /// No state directory could be determined, so there is nowhere to write.
    NoStateDir,
    /// The file could not be written, and what the system said about it.
    Io(String),
}

impl StoreError {
    /// The error in words.
    pub open spec fn text(&self) -> Seq<char> {
        match self {
            StoreError::NoStateDir => "no state directory — set XDG_STATE_HOME or HOME"@,
            StoreError::Io(e) => "could not write annotations: "@ + e@,
        }
    }

    /// The error in words.
    pub fn message(&self) -> (r: String)
        ensures
            r@ == self.text(),
    {
        match self {
            StoreError::NoStateDir => "no state directory — set XDG_STATE_HOME or HOME".to_owned(),
            StoreError::Io(e) => "could not write annotations: ".to_owned().concat(e.as_str()),
        }
    }
}

/// The directory annotations live in, given `XDG_STATE_HOME` and the home
/// directory. An empty variable counts as unset.
pub fn state_dir(xdg: Option<&str>, home: Option<&str>) -> (r: Option<String>)
    ensures
        match (xdg, home) {
            (Some(x), _) if x@.len() > 0 => r matches Some(dir) && dir@ == joined(
                x@,
                "herdr-strays"@,
            ),
            (_, Some(h)) => r matches Some(dir) && dir@ == joined(h@, ".local/state/herdr-strays"@),
            (_, None) => r is None,
        },
{
    if let Some(x) = xdg {
        if !x.is_empty() {
            return Some(join_paths(x, "herdr-strays"));
        }
    }
    match home {
        Some(h) => Some(join_paths(h, ".local/state/herdr-strays")),
        None => None,
    }
}

/// Whether a character of a directory's name is kept in a file's name.
pub open spec fn keeps(c: char) -> bool {
    alphanumeric(c) || c == '-' || c == '_'
}

/// The name of a checkout's directory as far as it is kept in a file's name: the
/// first 32 of the characters that are kept.
pub open spec fn short_name(name: Seq<char>) -> Seq<char> {
    let kept = name.filter(|c: char| keeps(c));
    if kept.len() > 32 {
        kept.take(32)
    } else {
        kept
    }
}

/// What a person can tell a checkout by: the name of its directory.
pub open spec fn checkout_name(repo: Seq<char>) -> Seq<char> {
    short_name(
        match file_name_of(repo) {
            Some(n) => n,
            None => "repo"@,
        },
    )
}

/// The name of the file that holds one repository's annotations, given the key
/// that its path hashes to.
pub open spec fn stored_name(repo: Seq<char>, key: u64) -> Seq<char> {
    checkout_name(repo) + "-"@ + hex_of(key as nat, 16) + ".tsv"@
}

/// The name of the file that holds one repository's annotations, given the key
/// that its path hashes to.
///
/// Named by a hash of the worktree path rather than the path itself: a
/// repository path contains separators and is longer than some filesystems
/// allow, and the directory is ours alone so collisions are the only risk worth
/// managing. The directory name is kept alongside the hash purely so a human
/// looking in the state directory can tell which file belongs to which checkout.
pub fn file_name_for(repo: &str, key: u64) -> (r: String)
    ensures
        r@ == stored_name(repo@, key),
{
    let name = match file_name(repo) {
        Some(n) => n,
        None => "repo".to_owned(),
    };
    let cs = chars_of(name.as_str());
    let ghost p = |c: char| keeps(c);
    let mut kept: Vec<char> = Vec::new();
    proof {
        reveal(Seq::filter);
        assert(cs@.take(0).filter(p) =~= Seq::<char>::empty());
    }
    for i in 0..cs.len()
        invariant
            p == (|c: char| keeps(c)),
            kept@ =~= cs@.take(i as int).filter(p),
    {
        let c: char = cs[i];
        proof {
            assert(cs@.take(i + 1) =~= cs@.take(i as int).push(c));
            cs@.take(i as int).lemma_filter_push(c, p);
        }
        if c.is_alphanumeric() || c == '-' || c == '_' {
            kept.push(c);
        }
    }
    assert(cs@.take(cs@.len() as int) =~= cs@);
    if kept.len() > 32 {
        kept.truncate(32);
        assert(kept@ =~= cs@.filter(p).take(32));
    }
    let mut out = text_of(kept.as_slice());
    out.append("-");
    let digits = hex(key, 16);
    out.append(digits.as_str());
    out.append(".tsv");
    out
}

/// `Hash` for `Path`: hands the hasher something. What is left unsaid: how much
/// there is depends on the width of the machine's words.
#[verifier::external_body]
fn feed_path(path: &str, hasher: &mut DefaultHasher)
    ensures
        old(hasher)@.is_prefix_of(final(hasher)@),
{
    std::hash::Hash::hash(std::path::Path::new(path), hasher)
}

/// The file holding one repository's annotations, under a given state root: one
/// with the directory's name and the key that the path hashes to. Which key that
/// is depends on the machine and is left unsaid.
pub fn file_in(dir: &str, repo: &str) -> (r: String)
    ensures
        exists|key: u64| r@ == joined(dir@, #[trigger] stored_name(repo@, key)),
{
    let mut hasher = DefaultHasher::new();
    feed_path(repo, &mut hasher);
    let key: u64 = hasher.finish();
    let name = file_name_for(repo, key);
    join_paths(dir, name.as_str())
}

/// A character as it is written in a field.
pub open spec fn escape_char(c: char) -> Seq<char> {
    if c == '\\' {
        seq!['\\', '\\']
    } else if c == '\t' {
        seq!['\\', 't']
    } else if c == '\n' {
        seq!['\\', 'n']
    } else if c == '\r' {
        seq!['\\', 'r']
    } else {
        seq![c]
    }
}

/// A text as it is written in a field.
pub open spec fn escaped(s: Seq<char>) -> Seq<char>
    decreases s.len(),
{
    if s.len() == 0 {
        Seq::empty()
    } else {
        escape_char(s[0]) + escaped(s.skip(1))
    }
}

/// What the character behind a backslash stands for. One that stands for
/// nothing keeps the backslash.
pub open spec fn unescape_char(c: char) -> Seq<char> {
    if c == 't' {
        seq!['\t']
    } else if c == 'n' {
        seq!['\n']
    } else if c == 'r' {
        seq!['\r']
    } else if c == '\\' {
        seq!['\\']
    } else {
        seq!['\\', c]
    }
}

/// The text that a field spells.
pub open spec fn unescaped(s: Seq<char>) -> Seq<char>
    decreases s.len(),
{
    if s.len() == 0 {
        Seq::empty()
    } else if s[0] != '\\' {
        seq![s[0]] + unescaped(s.skip(1))
    } else if s.len() == 1 {
        seq!['\\']
    } else {
        unescape_char(s[1]) + unescaped(s.skip(2))
    }
}

/// Make a field safe to sit between tabs on one line.
pub fn escape(text: &str) -> (r: String)
    ensures
        r@ == escaped(text@),
{
    let cs = chars_of(text);
    let mut out = String::new();
    assert(cs@.skip(0) =~= cs@);
    for i in 0..cs.len()
        invariant
            cs@ == text@,
            escaped(text@) =~= out@ + escaped(cs@.skip(i as int)),
    {
        let c: char = cs[i];
        assert(cs@.skip(i as int).skip(1) =~= cs@.skip(i + 1));
        if c == '\\' {
            out.push('\\');
            out.push('\\');
        } else if c == '\t' {
            out.push('\\');
            out.push('t');
        } else if c == '\n' {
            out.push('\\');
            out.push('n');
        } else if c == '\r' {
            out.push('\\');
            out.push('r');
        } else {
            out.push(c);
        }
    }
    assert(cs@.skip(cs@.len() as int) =~= Seq::<char>::empty());
    out
}

/// Reverse [`escape`].
pub fn unescape(text: &str) -> (r: String)
    ensures
        r@ == unescaped(text@),
{
    let cs = chars_of(text);
    let mut out = String::new();
    let mut i: usize = 0;
    assert(cs@.skip(0) =~= cs@);
    while i < cs.len()
        invariant
            cs@ == text@,
            i <= cs@.len(),
            unescaped(text@) =~= out@ + unescaped(cs@.skip(i as int)),
        decreases cs@.len() - i,
    {
        let c: char = cs[i];
        let ghost rest = cs@.skip(i as int);
        assert(rest.skip(1) =~= cs@.skip(i + 1));
        if c != '\\' {
            out.push(c);
            i += 1;
        } else if i + 1 == cs.len() {
            out.push('\\');
            i += 1;
            assert(cs@.skip(i as int) =~= Seq::<char>::empty());
            assert(unescaped(cs@.skip(i as int)) =~= Seq::<char>::empty());
        } else {
            let d: char = cs[i + 1];
            assert(rest[1] == d);
            assert(rest.skip(2) =~= cs@.skip(i + 2));
            if d == 't' {
                out.push('\t');
            } else if d == 'n' {
                out.push('\n');
            } else if d == 'r' {
                out.push('\r');
            } else if d == '\\' {
                out.push('\\');
            } else {
                out.push('\\');
                out.push(d);
            }
            i += 2;
        }
    }
    assert(cs@.skip(i as int) =~= Seq::<char>::empty());
    out
}

/// Reading a field back gives the text that was written.
pub proof fn unescaping_undoes_escaping(s: Seq<char>)
    ensures
        unescaped(escaped(s)) == s,
    decreases s.len(),
{
    if s.len() > 0 {
        let rest = escaped(s.skip(1));
        let e = escape_char(s[0]) + rest;
        unescaping_undoes_escaping(s.skip(1));
        if escape_char(s[0]).len() == 1 {
            assert(e.skip(1) =~= rest);
        } else {
            assert(e.skip(2) =~= rest);
        }
        assert(unescaped(e) =~= seq![s[0]] + s.skip(1));
        assert(seq![s[0]] + s.skip(1) =~= s);
    }
}

/// A character that would break a record apart.
pub open spec fn breaks(c: char) -> bool {
    c == '\t' || c == '\n' || c == '\r'
}

/// Whether a text would leave a record in one piece.
pub open spec fn unbroken(s: Seq<char>) -> bool {
    forall|i: int| 0 <= i < s.len() ==> !breaks(#[trigger] s[i])
}

/// A field that is written holds no tab and no line ending.
pub proof fn escaped_fields_are_unbroken(s: Seq<char>)
    ensures
        unbroken(escaped(s)),
    decreases s.len(),
{
    if s.len() > 0 {
        escaped_fields_are_unbroken(s.skip(1));
        let head = escape_char(s[0]);
        let tail = escaped(s.skip(1));
        assert forall|i: int| 0 <= i < escaped(s).len() implies !breaks(#[trigger] escaped(s)[i]) by {
            if i < head.len() {
                assert(escaped(s)[i] == head[i]);
            } else {
                assert(escaped(s)[i] == tail[i - head.len()]);
            }
        }
    }
}

/// The fields of a record.
pub open spec fn record_fields(n: NoteView) -> Seq<Seq<char>> {
    seq![
        decimal_of(n.line as nat),
        decimal_of(n.hash as nat),
        kind_word(n.kind),
        escaped(n.file),
        escaped(n.text),
    ]
}

/// A record without the newline that ends it.
pub open spec fn record_line(n: NoteView) -> Seq<char> {
    join_with(record_fields(n), seq!['\t'])
}

/// The note that a line records, if it does: a line number, a hash, a kind, a
/// path, and the text, which may hold a tab and must not be empty.
pub open spec fn record_in(line: Seq<char>) -> Option<NoteView> {
    let fields = split_on(line, '\t');
    if fields.len() < 4 {
        None
    } else {
        let text = unescaped(join_with(fields.skip(4), seq!['\t']));
        match (
            nat_upto(fields[0], u32::MAX as nat),
            nat_upto(fields[1], u64::MAX as nat),
        ) {
            (Some(number), Some(hash)) => if text.len() == 0 {
                None
            } else {
                Some(
                    NoteView {
                        file: unescaped(fields[3]),
                        line: number as u32,
                        hash: hash as u64,
                        kind: kind_in(fields[2]),
                        text,
                    },
                )
            },
            _ => None,
        }
    }
}

/// `line<TAB>hash<TAB>kind<TAB>path<TAB>text`, newline-terminated.
pub fn format_record(a: &Annotation) -> (r: String)
    ensures
        r@ == record_line(a@).push('\n'),
{
    let mut fields: Vec<String> = Vec::new();
    fields.push(decimal(a.anchor.line as u64));
    fields.push(decimal(a.anchor.hash));
    fields.push(a.kind.label().to_owned());
    fields.push(escape(a.anchor.file.as_str()));
    fields.push(escape(a.text.as_str()));
    assert(texts(fields@) =~= record_fields(a@));
    let mut tab = String::new();
    tab.push('\t');
    assert(tab@ =~= seq!['\t']);
    let mut out = join(&fields, tab.as_str());
    out.push('\n');
    out
}

/// The characters of an optional note's texts.
pub open spec fn note_view(o: Option<Annotation>) -> Option<NoteView> {
    match o {
        Some(a) => Some(a@),
        None => None,
    }
}

/// Read one record back, skipping anything that does not parse.
///
/// A record this version cannot read is dropped rather than failing the load:
/// one malformed line should cost one annotation, not all of them.
pub fn parse_record(line: &str) -> (r: Option<Annotation>)
    ensures
        note_view(r) == record_in(line@),
{
    let mut fields = split(line, '\t');
    let ghost all = split_on(line@, '\t');
    assert(all.len() == fields@.len());
    if fields.len() < 4 {
        return None;
    }
    assert(all[0] == fields@[0]@ && all[1] == fields@[1]@ && all[2] == fields@[2]@ && all[3]
        == fields@[3]@);
    let rest = fields.split_off(4);
    proof {
        assert(texts(rest@) =~= all.skip(4));
        assert(fields@[0]@ == all[0] && fields@[1]@ == all[1] && fields@[2]@ == all[2]
            && fields@[3]@ == all[3]);
    }
    let number: u32 = match parse_u32(fields[0].as_str()) {
        Some(n) => n,
        None => {
            return None;
        },
    };
    let hash: u64 = match parse_upto(fields[1].as_str(), u64::MAX) {
        Some(n) => n,
        None => {
            return None;
        },
    };
    let kind = Kind::parse(fields[2].as_str());
    let file = unescape(fields[3].as_str());
    // The text is last, so a tab surviving in it cannot shift the other fields.
    let mut tab = String::new();
    tab.push('\t');
    assert(tab@ =~= seq!['\t']);
    let joined_rest = join(&rest, tab.as_str());
    let text = unescape(joined_rest.as_str());
    if text.is_empty() {
        return None;
    }
    Some(Annotation { anchor: Anchor { file, line: number, hash }, kind, text })
}

proof fn lemma_decimal_unbroken(n: nat)
    ensures
        unbroken(decimal_of(n)),
    decreases n,
{
    let s = decimal_of(n);
    if n >= 10 {
        lemma_decimal_unbroken(n / 10);
        assert forall|i: int| 0 <= i < s.len() implies !breaks(#[trigger] s[i]) by {
            if i < s.len() - 1 {
                assert(s[i] == decimal_of(n / 10)[i]);
            }
        }
    }
}

proof fn lemma_kind_unbroken(kind: Kind)
    ensures
        unbroken(kind_word(kind)),
{
    reveal_strlit("issue");
    reveal_strlit("suggestion");
    reveal_strlit("question");
    reveal_strlit("note");
}

proof fn lemma_fields_unbroken(n: NoteView)
    ensures
        forall|k: int| 0 <= k < record_fields(n).len() ==> unbroken(#[trigger] record_fields(n)[k]),
{
    lemma_decimal_unbroken(n.line as nat);
    lemma_decimal_unbroken(n.hash as nat);
    lemma_kind_unbroken(n.kind);
    escaped_fields_are_unbroken(n.file);
    escaped_fields_are_unbroken(n.text);
}

/// A record survives the round trip: a note with a text reads back as it was
/// written.
pub proof fn records_read_back(n: NoteView)
    requires
        n.text.len() > 0,
    ensures
        record_in(record_line(n)) == Some(n),
{
    let fields = record_fields(n);
    lemma_fields_unbroken(n);
    assert forall|k: int, j: int|
        0 <= k < fields.len() && 0 <= j < fields[k].len() implies fields[k][j] != '\t' by {
        assert(unbroken(fields[k]));
        assert(!breaks(fields[k][j]));
    }
    lemma_join_split(fields, '\t');
    decimal_reads_back(n.line as nat);
    decimal_reads_back(n.hash as nat);
    kind_words_read_back(n.kind);
    unescaping_undoes_escaping(n.file);
    unescaping_undoes_escaping(n.text);
    assert(fields.skip(4) =~= seq![escaped(n.text)]);
    assert(join_with(fields.skip(4), seq!['\t']) == escaped(n.text));
}

proof fn lemma_join_unbroken(fields: Seq<Seq<char>>)
    requires
        forall|k: int| 0 <= k < fields.len() ==> unbroken(#[trigger] fields[k]),
    ensures
        forall|i: int|
            0 <= i < join_with(fields, seq!['\t']).len() ==> #[trigger] join_with(
                fields,
                seq!['\t'],
            )[i] != '\n' && join_with(fields, seq!['\t'])[i] != '\r',
    decreases fields.len(),
{
    let s = join_with(fields, seq!['\t']);
    if fields.len() == 0 {
    } else if fields.len() == 1 {
        assert(unbroken(fields[0]));
        assert forall|i: int| 0 <= i < s.len() implies #[trigger] s[i] != '\n' && s[i] != '\r' by {
            assert(!breaks(fields[0][i]));
        }
    } else {
        let rest = fields.skip(1);
        assert forall|k: int| 0 <= k < rest.len() implies unbroken(#[trigger] rest[k]) by {
            assert(unbroken(fields[k + 1]));
        }
        lemma_join_unbroken(rest);
        let head = fields[0] + seq!['\t'];
        let tail = join_with(rest, seq!['\t']);
        assert(unbroken(fields[0]));
        assert forall|i: int| 0 <= i < s.len() implies #[trigger] s[i] != '\n' && s[i] != '\r' by {
            if i < fields[0].len() {
                assert(!breaks(fields[0][i]));
            } else if i >= head.len() {
                assert(s[i] == tail[i - head.len()]);
            }
        }
    }
}

/// The notes that lines record, in their order. A line that records none is
/// passed over.
pub open spec fn notes_in(lines: Seq<Seq<char>>) -> Seq<NoteView>
    decreases lines.len(),
{
    if lines.len() == 0 {
        Seq::empty()
    } else {
        match record_in(lines[0]) {
            Some(n) => seq![n] + notes_in(lines.skip(1)),
            None => notes_in(lines.skip(1)),
        }
    }
}

/// What is written for some notes.
pub open spec fn file_text(notes: Seq<NoteView>) -> Seq<char>
    decreases notes.len(),
{
    if notes.len() == 0 {
        Seq::empty()
    } else {
        record_line(notes[0]).push('\n') + file_text(notes.skip(1))
    }
}

/// Loading what was saved gives back every note that has a text, as it was and
/// in the order it had.
pub proof fn loading_returns_what_was_saved(notes: Seq<NoteView>)
    requires
        forall|i: int| 0 <= i < notes.len() ==> (#[trigger] notes[i]).text.len() > 0,
    ensures
        notes_in(lines_of(file_text(notes))) == notes,
    decreases notes.len(),
{
    let s = file_text(notes);
    if notes.len() > 0 {
        let line = record_line(notes[0]);
        let rest = file_text(notes.skip(1));
        assert(s == line.push('\n') + rest);
        lemma_fields_unbroken(notes[0]);
        lemma_join_unbroken(record_fields(notes[0]));
        assert forall|j: int| 0 <= j < line.len() implies s[j] != '\n' by {
            assert(s[j] == line[j]);
        }
        lemma_index_is(s, '\n', line.len() as int);
        assert(s.take(line.len() as int) =~= line);
        assert(s.skip(line.len() as int + 1) =~= rest);
        assert(without_return(line) == line);
        assert(notes[0].text.len() > 0);
        records_read_back(notes[0]);
        assert forall|i: int| 0 <= i < notes.skip(1).len() implies (
        #[trigger] notes.skip(1)[i]).text.len() > 0 by {
            assert(notes[i + 1].text.len() > 0);
        }
        loading_returns_what_was_saved(notes.skip(1));
        let lines = lines_of(s);
        assert(lines =~= seq![line] + lines_of(rest));
        assert(lines.skip(1) =~= lines_of(rest));
        assert(notes_in(lines) =~= seq![notes[0]] + notes.skip(1));
        assert(seq![notes[0]] + notes.skip(1) =~= notes);
    } else {
        assert(notes_in(lines_of(s)) =~= notes);
    }
}

/// The annotations recorded for a repository, from what its file holds.
///
/// A missing or unreadable file means no annotations, not an error: the notes
/// are an addition to the viewer, and losing them must not stop it working.
pub fn load(text: Option<&str>) -> (r: Annotations)
    ensures
        match text {
            Some(t) => note_views(r@) == notes_in(lines_of(t@)),
            None => r@.len() == 0,
        },
{
    let t = match text {
        Some(t) => t,
        None => {
            return Annotations::new();
        },
    };
    let all = lines(t);
    let ghost ls = lines_of(t@);
    let mut items: Vec<Annotation> = Vec::new();
    assert(ls.skip(0) =~= ls);
    assert(note_views(items@) =~= Seq::<NoteView>::empty());
    for i in 0..all.len()
        invariant
            texts(all@) == ls,
            notes_in(ls) =~= note_views(items@) + notes_in(ls.skip(i as int)),
    {
        assert(ls.skip(i as int)[0] == all@[i as int]@);
        assert(ls.skip(i as int).skip(1) =~= ls.skip(i + 1));
        let ghost before = note_views(items@);
        if let Some(a) = parse_record(all[i].as_str()) {
            items.push(a);
            assert(note_views(items@) =~= before.push(a@));
        }
    }
    assert(ls.skip(ls.len() as int) =~= Seq::<Seq<char>>::empty());
    assert(texts(all@).len() == all@.len());
    Annotations::from_items(items)
}

/// What to write for a repository's annotations in place of whatever was there,
/// or `None` where its file is to be removed.
///
/// An empty collection removes the file rather than leaving an empty one, so
/// the state directory does not fill with the residue of finished reviews.
pub fn save(annotations: &Annotations) -> (r: Option<String>)
    ensures
        r is None <==> annotations@.len() == 0,
        r matches Some(body) ==> body@ == file_text(note_views(annotations@)),
{
    if annotations.is_empty() {
        return None;
    }
    let items = annotations.iter();
    let ghost views = note_views(annotations@);
    let mut body = String::new();
    assert(views.skip(0) =~= views);
    for i in 0..items.len()
        invariant
            items@ == annotations@,
            views == note_views(annotations@),
            file_text(views) =~= body@ + file_text(views.skip(i as int)),
    {
        let record = format_record(&items[i]);
        assert(views.skip(i as int)[0] == items@[i as int]@);
        assert(views.skip(i as int).skip(1) =~= views.skip(i + 1));
        body.append(record.as_str());
    }
    assert(views.skip(views.len() as int) =~= Seq::<NoteView>::empty());
    Some(body)
}

/// What stands in files, by their names.
pub type Files = Map<Seq<char>, Seq<char>>;

/// What stands in files once notes were saved in one of them: their text, or
/// no file at all where there are none.
pub open spec fn saved_in(files: Files, file: Seq<char>, notes: Seq<NoteView>) -> Files {
    if notes.len() == 0 {
        files.remove(file)
    } else {
        files.insert(file, file_text(notes))
    }
}

/// The notes that a file holds; none where there is no file.
pub open spec fn loaded_from(files: Files, file: Seq<char>) -> Seq<NoteView> {
    if files.contains_key(file) {
        notes_in(lines_of(files[file]))
    } else {
        Seq::empty()
    }
}

/// Two repositories whose paths hash to different keys have different files, and
/// so have two whose directories are told apart by their names.
pub proof fn repositories_have_files_of_their_own(
    dir: Seq<char>,
    one: Seq<char>,
    two: Seq<char>,
    key_one: u64,
    key_two: u64,
)
    requires
        key_one != key_two || checkout_name(one) != checkout_name(two),
    ensures
        joined(dir, stored_name(one, key_one)) != joined(dir, stored_name(two, key_two)),
{
    let a = stored_name(one, key_one);
    let b = stored_name(two, key_two);
    lemma_not_rooted(one, key_one);
    lemma_not_rooted(two, key_two);
    if joined(dir, a) == joined(dir, b) {
        let lead = if dir.len() == 0 || dir.last() == '/' {
            dir
        } else {
            dir + seq!['/']
        };
        assert((lead + a).skip(lead.len() as int) =~= a);
        assert((lead + b).skip(lead.len() as int) =~= b);
        assert(a == b);
        reveal_strlit("-");
        reveal_strlit(".tsv");
        lemma_hex_len(key_one as nat, 16);
        lemma_hex_len(key_two as nat, 16);
        let m = checkout_name(one).len() as int;
        let n = checkout_name(two).len() as int;
        assert(a.len() == m + 21 && b.len() == n + 21);
        assert(a.take(m) =~= checkout_name(one));
        assert(b.take(n) =~= checkout_name(two));
        assert(a.subrange(m + 1, m + 17) =~= hex_of(key_one as nat, 16));
        assert(b.subrange(n + 1, n + 17) =~= hex_of(key_two as nat, 16));
        reveal_with_fuel(hex_reach, 17);
        lemma_hex_distinct(key_one as nat, key_two as nat, 16);
    }
}

/// A file's name is no path that starts at the root.
proof fn lemma_not_rooted(repo: Seq<char>, key: u64)
    ensures
        !is_rooted(stored_name(repo, key)),
{
    let name = match file_name_of(repo) {
        Some(n) => n,
        None => "repo"@,
    };
    reveal_strlit("repo");
    reveal_strlit("-");
    lemma_file_name_unbroken(repo);
    let kept = name.filter(|c: char| keeps(c));
    let s = stored_name(repo, key);
    if checkout_name(repo).len() > 0 {
        assert(s[0] == kept[0]);
        if kept[0] == '/' {
            name.lemma_filter_contains_rev(|c: char| keeps(c), kept[0]);
        }
    } else {
        assert(s[0] == '-');
    }
}

/// Notes that were saved are loaded again as they were, and those of another
/// repository do not change: not where its path hashes to another key, nor where
/// its directory has another name.
pub proof fn saving_touches_one_repository(
    files: Files,
    dir: Seq<char>,
    one: Seq<char>,
    two: Seq<char>,
    key_one: u64,
    key_two: u64,
    notes: Seq<NoteView>,
)
    requires
        key_one != key_two || checkout_name(one) != checkout_name(two),
        forall|i: int| 0 <= i < notes.len() ==> (#[trigger] notes[i]).text.len() > 0,
    ensures
        ({
            let mine = joined(dir, stored_name(one, key_one));
            let theirs = joined(dir, stored_name(two, key_two));
            let after = saved_in(files, mine, notes);
            &&& loaded_from(after, mine) == notes
            &&& loaded_from(after, theirs) == loaded_from(files, theirs)
        }),
{
    repositories_have_files_of_their_own(dir, one, two, key_one, key_two);
    loading_returns_what_was_saved(notes);
    assert(notes.len() == 0 ==> notes =~= Seq::<NoteView>::empty());
}

} // verus!
