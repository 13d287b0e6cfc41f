//! Finding the git repositories currently open in herdr.
//!
//! # Why panes, not workspaces
//!
//! `herdr workspace list` carries no path at all — its records are
//! `workspace_id`, `label`, `number`, `pane_count`, `tab_count`,
//! `active_tab_id`, `agent_status`, `focused`. `herdr pane list` is where `cwd`
//! lives, so panes are the only usable source of directories.
//!
//! Several panes routinely share one repository (a workspace with three tabs
//! open in the same checkout), so the discovered roots are de-duplicated.

use vstd::prelude::*;
use vstd::string::*;

use crate::paths::{file_name, file_name_of, same_as, same_path};
use crate::sorting::{
    by_path, dedup_by_path, lemma_by_path_map, lemma_one_per_path_map, one_per_path, sort_by_path,
    Pathed,
};
use crate::text::{
    chars_of, find_text_from, first_at, is_space, space, text_between, text_view, texts, trim,
    trim_front, trimmed,
};

pub mod listing;

verus! {

/// One repository open in herdr, with the workspace labels that reach it.
#[derive(Debug, PartialEq, Eq)]
pub struct Project {
    /// Worktree root, as resolved by `git rev-parse --show-toplevel`.
    pub root: String,
    /// Display name — the herdr workspace label when there is exactly one, else
    /// the directory name.
    pub name: String,
}

/// A repository, with its texts as characters.
pub struct ProjectView {
    pub root: Seq<char>,
    pub name: Seq<char>,
}

impl View for Project {
    type V = ProjectView;

    open spec fn view(&self) -> ProjectView {
        ProjectView { root: self.root@, name: self.name@ }
    }
}

impl Clone for Project {
    fn clone(&self) -> (r: Self)
        ensures
            r == *self,
    {
        Project { root: self.root.clone(), name: self.name.clone() }
    }
}

/// The repositories of a list, with their texts as characters.
pub open spec fn project_views(v: Seq<Project>) -> Seq<ProjectView> {
    v.map_values(|p: Project| p@)
}

/// A pane's directory paired with the workspace it belongs to.
#[derive(Debug, PartialEq, Eq)]
pub struct PaneCwd {
    pub workspace_id: String,
    pub cwd: String,
}

/// A pane's directory, with its texts as characters.
pub struct PaneView {
    pub workspace_id: Seq<char>,
    pub cwd: Seq<char>,
}

impl View for PaneCwd {
    type V = PaneView;

    open spec fn view(&self) -> PaneView {
        PaneView { workspace_id: self.workspace_id@, cwd: self.cwd@ }
    }
}

/// The panes of a list, with their texts as characters.
pub open spec fn pane_views(v: Seq<PaneCwd>) -> Seq<PaneView> {
    v.map_values(|p: PaneCwd| p@)
}

/// Which workspaces contribute projects.
#[derive(Debug, PartialEq, Eq)]
pub enum Scope {
    /// Only the workspace the plugin was opened in.
    ///
    /// Herdr injects `HERDR_WORKSPACE_ID` into plugin commands and panes, and a
    /// plugin pane inherits the context of the open that created it, so this is
    /// the workspace the user was looking at.
    CurrentWorkspace(String),
    /// Every workspace herdr has open.
    AllWorkspaces,
}

impl Clone for Scope {
    fn clone(&self) -> (r: Self)
        ensures
            r == *self,
    {
        match self {
            Scope::CurrentWorkspace(id) => Scope::CurrentWorkspace(id.clone()),
            Scope::AllWorkspaces => Scope::AllWorkspaces,
        }
    }
}

impl Scope {
    /// Whether a scope covers a workspace.
    pub open spec fn covers(&self, workspace: Seq<char>) -> bool {
        match self {
            Scope::CurrentWorkspace(id) => workspace == id@,
            Scope::AllWorkspaces => true,
        }
    }

    /// The scope herdr put us in, given `HERDR_WORKSPACE_ID`: that workspace.
    ///
    /// Falls back to every workspace when the id is absent — running the binary
    /// straight from a shell has no workspace to scope to.
    pub fn from_env(id: Option<String>) -> (r: Self)
        ensures
            match id {
                Some(text) => if trimmed(text@).len() > 0 {
                    r == Scope::CurrentWorkspace(text)
                } else {
                    r is AllWorkspaces
                },
                None => r is AllWorkspaces,
            },
    {
        match id {
            Some(text) => if !trim(text.as_str()).is_empty() {
                Scope::CurrentWorkspace(text)
            } else {
                Scope::AllWorkspaces
            },
            None => Scope::AllWorkspaces,
        }
    }

    /// Toggle between one workspace and all of them.
    ///
    /// With nothing to scope to, staying wide is the honest answer.
    pub fn toggled(&self, current: Option<&str>) -> (r: Self)
        ensures
            match (*self, current) {
                (Scope::AllWorkspaces, Some(id)) => r matches Scope::CurrentWorkspace(now) && now@
                    == id@,
                _ => r is AllWorkspaces,
            },
    {
        match self {
            Scope::CurrentWorkspace(_) => Scope::AllWorkspaces,
            Scope::AllWorkspaces => match current {
                Some(id) => Scope::CurrentWorkspace(id.to_owned()),
                None => Scope::AllWorkspaces,
            },
        }
    }

    /// Whether every workspace contributes.
    pub fn is_all(&self) -> (r: bool)
        ensures
            r == (self is AllWorkspaces),
    {
        match self {
            Scope::AllWorkspaces => true,
            Scope::CurrentWorkspace(_) => false,
        }
    }

    /// Keep only the panes this scope covers.
    pub fn filter(&self, panes: Vec<PaneCwd>) -> (r: Vec<PaneCwd>)
        ensures
            r@ == panes@.filter(|p: PaneCwd| self.covers(p.workspace_id@)),
    {
        let ghost f = |p: PaneCwd| self.covers(p.workspace_id@);
        let ghost all = panes@;
        let mut out: Vec<PaneCwd> = Vec::new();
        proof {
            reveal(Seq::filter);
            assert(all.take(0).filter(f) =~= Seq::<PaneCwd>::empty());
        }
        for pane in it: panes
            invariant
                it.seq() == all,
                f == (|p: PaneCwd| self.covers(p.workspace_id@)),
                out@ =~= all.take(it.index() as int).filter(f),
        {
            let ghost n = it.index() as int;
            proof {
                assert(all.take(n + 1) =~= all.take(n).push(pane));
                all.take(n).lemma_filter_push(pane, f);
            }
            let covered = match self {
                Scope::AllWorkspaces => true,
                Scope::CurrentWorkspace(id) => pane.workspace_id == *id,
            };
            if covered {
                out.push(pane);
            }
        }
        assert(all.take(all.len() as int) =~= all);
        out
    }
}

/// The labels of the workspaces, by their ids.
#[derive(Debug, PartialEq, Eq)]
pub struct Labels {
    entries: Vec<(String, String)>,
}

/// The map that entries make up, a later one taking the place of an earlier.
pub open spec fn label_map(entries: Seq<(String, String)>) -> Map<Seq<char>, Seq<char>>
    decreases entries.len(),
{
    if entries.len() == 0 {
        Map::empty()
    } else {
        label_map(entries.drop_last()).insert(entries.last().0@, entries.last().1@)
    }
}

impl View for Labels {
    type V = Map<Seq<char>, Seq<char>>;

    closed spec fn view(&self) -> Map<Seq<char>, Seq<char>> {
        label_map(self.entries@)
    }
}

impl Labels {
    /// No label at all.
    pub fn new() -> (r: Self)
        ensures
            r@ == Map::<Seq<char>, Seq<char>>::empty(),
    {
        Labels { entries: Vec::new() }
    }

    /// Give a workspace a label, in place of one it had.
    pub fn insert(&mut self, id: String, label: String)
        ensures
            final(self)@ == old(self)@.insert(id@, label@),
    {
        self.entries.push((id, label));
        assert(self.entries@.drop_last() =~= old(self).entries@);
    }

    /// The label of a workspace, if it has one.
    pub fn get(&self, id: &str) -> (r: Option<&String>)
        ensures
            match r {
                Some(label) => self@.contains_key(id@) && self@[id@] == label@,
                None => !self@.contains_key(id@),
            },
    {
        let wanted = id.to_owned();
        let mut n: usize = self.entries.len();
        assert(self.entries@.take(n as int) =~= self.entries@);
        while n > 0
            invariant
                n <= self.entries@.len(),
                wanted@ == id@,
                label_map(self.entries@.take(n as int)).contains_key(id@) == self@.contains_key(id@),
                self@.contains_key(id@) ==> label_map(self.entries@.take(n as int))[id@]
                    == self@[id@],
            decreases n,
        {
            proof {
                assert(self.entries@.take(n as int).drop_last() =~= self.entries@.take(n - 1));
                assert(self.entries@.take(n as int).last() == self.entries@[n - 1]);
            }
            if self.entries[n - 1].0 == wanted {
                return Some(&self.entries[n - 1].1);
            }
            n -= 1;
        }
        None
    }

    /// Whether there is none.
    pub fn is_empty(&self) -> (r: bool)
        ensures
            r ==> self@ == Map::<Seq<char>, Seq<char>>::empty(),
            !r ==> exists|id: Seq<char>| self@.contains_key(id),
    {
        proof {
            if self.entries@.len() > 0 {
                assert(self@.contains_key(self.entries@.last().0@));
            }
        }
        self.entries.len() == 0
    }
}

/// How far a scan for records has come.
pub struct Scan {
    /// How many objects are open.
    pub depth: nat,
    /// Where the record that is open starts.
    pub start: Option<int>,
    pub in_string: bool,
    /// Whether the last character was a backslash in a string.
    pub escaped: bool,
    /// The records that were found, from their first character to behind their
    /// last.
    pub found: Seq<(int, int)>,
}

/// Objects nested this deep are records.
pub const RECORD_DEPTH: usize = 3;

/// The scan after the character `c` at position `i`.
pub open spec fn scan_char(s: Scan, i: int, c: char) -> Scan {
    if s.escaped {
        Scan { escaped: false, ..s }
    } else if c == '\\' && s.in_string {
        Scan { escaped: true, ..s }
    } else if c == '"' {
        Scan { in_string: !s.in_string, ..s }
    } else if c == '{' && !s.in_string {
        Scan {
            depth: s.depth + 1,
            start: if s.depth + 1 == RECORD_DEPTH {
                Some(i)
            } else {
                s.start
            },
            ..s
        }
    } else if c == '}' && !s.in_string {
        let lower = if s.depth == 0 {
            0
        } else {
            (s.depth - 1) as nat
        };
        match s.start {
            Some(from) => if s.depth == RECORD_DEPTH {
                Scan { depth: lower, start: None, found: s.found.push((from, i + 1)), ..s }
            } else {
                Scan { depth: lower, ..s }
            },
            None => Scan { depth: lower, ..s },
        }
    } else {
        s
    }
}

/// The scan after the first `n` characters.
pub open spec fn scanned(cs: Seq<char>, n: int) -> Scan
    decreases n,
{
    if n <= 0 {
        Scan { depth: 0, start: None, in_string: false, escaped: false, found: Seq::empty() }
    } else {
        scan_char(scanned(cs, n - 1), n - 1, cs[n - 1])
    }
}

/// The records of a response.
pub open spec fn records_in(cs: Seq<char>) -> Seq<Seq<char>> {
    scanned(cs, cs.len() as int).found.map_values(|r: (int, int)| cs.subrange(r.0, r.1))
}

/// Where the scan stands makes sense: an open record starts at a brace, and so
/// does each that was found, which ends at one; they follow one another.
pub open spec fn scan_ok(cs: Seq<char>, n: int, s: Scan) -> bool {
    &&& s.depth <= n
    &&& s.start matches Some(from) ==> 0 <= from < n && cs[from] == '{' && (s.found.len() > 0
        ==> s.found.last().1 <= from)
    &&& forall|k: int|
        0 <= k < s.found.len() ==> {
            let (a, b) = #[trigger] s.found[k];
            0 <= a < b - 1 && b <= n && cs[a] == '{' && cs[b - 1] == '}'
        }
    &&& forall|k: int| 0 < k < s.found.len() ==> s.found[k - 1].1 <= (#[trigger] s.found[k]).0
}

/// Every record starts with an opening brace and ends with a closing one, and
/// no two of them overlap.
pub proof fn records_are_braced(cs: Seq<char>, n: int)
    requires
        0 <= n <= cs.len(),
    ensures
        scan_ok(cs, n, scanned(cs, n)),
    decreases n,
{
    if n > 0 {
        records_are_braced(cs, n - 1);
        let s = scanned(cs, n - 1);
        let t = scanned(cs, n);
        if t.found.len() > s.found.len() {
            assert(t.found.drop_last() =~= s.found);
            assert forall|k: int| 0 <= k < t.found.len() implies {
                let (a, b) = #[trigger] t.found[k];
                0 <= a < b - 1 && b <= n && cs[a] == '{' && cs[b - 1] == '}'
            } by {
                if k < s.found.len() {
                    assert(t.found[k] == s.found[k]);
                }
            }
            assert forall|k: int| 0 < k < t.found.len() implies t.found[k - 1].1 <= (
            #[trigger] t.found[k]).0 by {
                if k < s.found.len() {
                    assert(t.found[k] == s.found[k]);
                    assert(t.found[k - 1] == s.found[k - 1]);
                }
            }
        }
        if s.found.len() > 0 {
            let last = s.found[s.found.len() - 1];
            assert(last.1 <= n - 1);
        }
    }
}

/// Split a JSON array-of-objects response into its records.
///
/// Records are found by brace depth rather than by anchoring on a key: herdr
/// serialises object keys alphabetically, so no single key is reliably first,
/// and slicing from the wrong key would drop the fields ahead of it. Only
/// objects nested exactly two levels deep are records — that is `panes[]` and
/// `workspaces[]` inside the `result` wrapper, and it skips both the envelope
/// and inner objects such as `agent_session` and `scroll`.
pub fn records(json: &str) -> (r: Vec<String>)
    ensures
        texts(r@) == records_in(json@),
{
    let cs = chars_of(json);
    let mut out: Vec<String> = Vec::new();
    let mut depth: usize = 0;
    let mut start: Option<usize> = None;
    let mut in_string: bool = false;
    let mut escaped: bool = false;
    let ghost cut = |r: (int, int)| json@.subrange(r.0, r.1);
    assert(texts(out@) =~= scanned(json@, 0).found.map_values(cut));
    for i in 0..cs.len()
        invariant
            cs@ == json@,
            cut == (|r: (int, int)| json@.subrange(r.0, r.1)),
            depth == scanned(json@, i as int).depth,
            match start {
                Some(from) => scanned(json@, i as int).start == Some(from as int),
                None => scanned(json@, i as int).start is None,
            },
            in_string == scanned(json@, i as int).in_string,
            escaped == scanned(json@, i as int).escaped,
            texts(out@) =~= scanned(json@, i as int).found.map_values(cut),
    {
        let c: char = cs[i];
        proof {
            records_are_braced(json@, i as int);
            assert(scanned(json@, i + 1) == scan_char(scanned(json@, i as int), i as int, c));
        }
        if escaped {
            escaped = false;
        } else if c == '\\' && in_string {
            escaped = true;
        } else if c == '"' {
            in_string = !in_string;
        } else if c == '{' && !in_string {
            depth += 1;
            if depth == RECORD_DEPTH {
                start = Some(i);
            }
        } else if c == '}' && !in_string {
            if depth == RECORD_DEPTH {
                if let Some(from) = start {
                    let record = text_between(&cs, from, i + 1);
                    let ghost before = texts(out@);
                    out.push(record);
                    assert(texts(out@) =~= before.push(record@));
                    assert(record@ == cut((from as int, i + 1)));
                    start = None;
                }
            }
            if depth > 0 {
                depth -= 1;
            }
        }
    }
    assert(records_in(json@) =~= scanned(json@, json@.len() as int).found.map_values(cut));
    out
}

/// The string that starts right behind an opening quote, up to its closing one,
/// with its escapes read.
pub open spec fn quoted(s: Seq<char>) -> Option<Seq<char>>
    decreases s.len(),
{
    if s.len() == 0 {
        None
    } else if s[0] == '"' {
        Some(Seq::empty())
    } else if s[0] == '\\' {
        if s.len() == 1 {
            None
        } else {
            let c = if s[1] == 'n' {
                '\n'
            } else if s[1] == 't' {
                '\t'
            } else if s[1] == 'r' {
                '\r'
            } else {
                s[1]
            };
            match quoted(s.skip(2)) {
                Some(rest) => Some(seq![c] + rest),
                None => None,
            }
        }
    } else {
        match quoted(s.skip(1)) {
            Some(rest) => Some(seq![s[0]] + rest),
            None => None,
        }
    }
}

/// A text without the white space at its front.
pub open spec fn trimmed_start(s: Seq<char>) -> Seq<char> {
    trim_front(s, |c: char| is_space(c))
}

/// The string value that follows a key: a colon, and a string in quotes.
pub open spec fn value_after(rest: Seq<char>) -> Option<Seq<char>> {
    let a = trimmed_start(rest);
    if a.len() > 0 && a[0] == ':' {
        let b = trimmed_start(a.skip(1));
        if b.len() > 0 && b[0] == '"' {
            quoted(b.skip(1))
        } else {
            None
        }
    } else {
        None
    }
}

/// The value of the first whole key from `from` on that has a string value.
///
/// A key is whole where it does not follow a `_` or a quote: the same letters
/// can end a longer key, as `cwd` does `foreground_cwd`.
pub open spec fn value_from(cs: Seq<char>, needle: Seq<char>, from: int) -> Option<Seq<char>>
    decreases cs.len() - from,
{
    match first_at(cs, needle, from) {
        None => None,
        Some(at) => if needle.len() == 0 || at < from || at + needle.len() > cs.len() {
            None
        } else {
            let whole = at == from || !(cs[at - 1] == '_' || cs[at - 1] == '"');
            let rest = at + needle.len();
            if whole && value_after(cs.skip(rest)) is Some {
                value_after(cs.skip(rest))
            } else {
                value_from(cs, needle, rest)
            }
        },
    }
}

/// A key as it is written in a record.
pub open spec fn key_text(key: Seq<char>) -> Seq<char> {
    seq!['"'] + key + seq!['"']
}

/// The string that a record has under a key.
pub open spec fn field_in(record: Seq<char>, key: Seq<char>) -> Option<Seq<char>> {
    value_from(record, key_text(key), 0)
}

fn skip_space(cs: &Vec<char>, from: usize) -> (r: usize)
    requires
        from <= cs@.len(),
    ensures
        from <= r <= cs@.len(),
        trimmed_start(cs@.skip(from as int)) == cs@.skip(r as int),
{
    let ghost p = |c: char| is_space(c);
    let mut i: usize = from;
    while i < cs.len() && space(cs[i])
        invariant
            from <= i <= cs@.len(),
            p == (|c: char| is_space(c)),
            trim_front(cs@.skip(from as int), p) == trim_front(cs@.skip(i as int), p),
        decreases cs@.len() - i,
    {
        assert(cs@.skip(i as int).skip(1) =~= cs@.skip(i + 1));
        i += 1;
    }
    i
}

fn read_quoted(cs: &Vec<char>, from: usize) -> (r: Option<String>)
    requires
        from <= cs@.len(),
    ensures
        text_view(r) == quoted(cs@.skip(from as int)),
{
    let mut out = String::new();
    let mut i: usize = from;
    while i < cs.len()
        invariant
            from <= i <= cs@.len(),
            quoted(cs@.skip(from as int)) == (match quoted(cs@.skip(i as int)) {
                Some(rest) => Some(out@ + rest),
                None => None,
            }),
        decreases cs@.len() - i,
    {
        let c: char = cs[i];
        let ghost rest = cs@.skip(i as int);
        let ghost before = out@;
        assert(rest.skip(1) =~= cs@.skip(i + 1));
        if c == '"' {
            assert(out@ + Seq::<char>::empty() =~= out@);
            return Some(out);
        } else if c == '\\' {
            if i + 1 == cs.len() {
                return None;
            }
            let d: char = cs[i + 1];
            assert(rest[1] == d);
            assert(rest.skip(2) =~= cs@.skip(i + 2));
            if d == 'n' {
                out.push('\n');
            } else if d == 't' {
                out.push('\t');
            } else if d == 'r' {
                out.push('\r');
            } else {
                out.push(d);
            }
            proof {
                match quoted(cs@.skip(i + 2)) {
                    Some(tail) => {
                        assert(before + (seq![out@.last()] + tail) =~= out@ + tail);
                    },
                    None => {},
                }
            }
            i += 2;
        } else {
            out.push(c);
            proof {
                match quoted(cs@.skip(i + 1)) {
                    Some(tail) => {
                        assert(before + (seq![c] + tail) =~= out@ + tail);
                    },
                    None => {},
                }
            }
            i += 1;
        }
    }
    assert(cs@.skip(i as int) =~= Seq::<char>::empty());
    None
}

fn read_value(cs: &Vec<char>, from: usize) -> (r: Option<String>)
    requires
        from <= cs@.len(),
    ensures
        text_view(r) == value_after(cs@.skip(from as int)),
{
    let a: usize = skip_space(cs, from);
    if a == cs.len() || cs[a] != ':' {
        return None;
    }
    assert(cs@.skip(a as int).skip(1) =~= cs@.skip(a + 1));
    let b: usize = skip_space(cs, a + 1);
    if b == cs.len() || cs[b] != '"' {
        return None;
    }
    assert(cs@.skip(b as int).skip(1) =~= cs@.skip(b + 1));
    read_quoted(cs, b + 1)
}

/// Read `"key": "value"` out of a record, honouring the escapes that appear in
/// paths (`\"`, `\\`, `\/`).
pub fn string_field(record: &str, key: &str) -> (r: Option<String>)
    ensures
        text_view(r) == field_in(record@, key@),
{
    let cs = chars_of(record);
    let mut needle: Vec<char> = Vec::new();
    needle.push('"');
    let ks = chars_of(key);
    for i in 0..ks.len()
        invariant
            ks@ == key@,
            needle@ =~= seq!['"'] + ks@.take(i as int),
    {
        needle.push(ks[i]);
    }
    assert(ks@.take(ks@.len() as int) =~= ks@);
    needle.push('"');
    assert(needle@ =~= key_text(key@));
    let mut from: usize = 0;
    loop
        invariant
            cs@ == record@,
            needle@ == key_text(key@),
            from <= cs@.len(),
            field_in(record@, key@) == value_from(cs@, needle@, from as int),
        decreases cs@.len() - from,
    {
        match find_text_from(&cs, &needle, from) {
            None => {
                return None;
            },
            Some(at) => {
                let rest: usize = at + needle.len();
                if at == from || !(cs[at - 1] == '_' || cs[at - 1] == '"') {
                    if let Some(value) = read_value(&cs, rest) {
                        return Some(value);
                    }
                }
                from = rest;
            },
        }
    }
}

/// What a record says of a pane: its `cwd`, and the workspace it belongs to
/// where the record says so.
///
/// `foreground_cwd` is the shell's directory and wanders with `cd`; `cwd` is
/// the pane's own, which is what identifies the project.
pub open spec fn pane_in(record: Seq<char>) -> Option<PaneView> {
    match field_in(record, "cwd"@) {
        Some(cwd) => Some(
            PaneView {
                workspace_id: match field_in(record, "workspace_id"@) {
                    Some(id) => id,
                    None => Seq::empty(),
                },
                cwd,
            },
        ),
        None => None,
    }
}

/// What the records say of panes.
pub open spec fn panes_in(records: Seq<Seq<char>>) -> Seq<PaneView>
    decreases records.len(),
{
    if records.len() == 0 {
        Seq::empty()
    } else {
        match pane_in(records.last()) {
            Some(pane) => panes_in(records.drop_last()).push(pane),
            None => panes_in(records.drop_last()),
        }
    }
}

/// Extract `workspace_id`/`cwd` pairs from a `pane list` response.
///
/// A scanning parser: this reads two string fields from records whose full
/// shape is undocumented and version-dependent, and an unrecognised payload
/// must degrade to "no projects" rather than fail.
pub fn parse_pane_cwds(json: &str) -> (r: Vec<PaneCwd>)
    ensures
        pane_views(r@) == panes_in(records_in(json@)),
{
    let all = records(json);
    let ghost rs = records_in(json@);
    let mut out: Vec<PaneCwd> = Vec::new();
    assert(rs.take(0) =~= Seq::<Seq<char>>::empty());
    assert(pane_views(out@) =~= Seq::<PaneView>::empty());
    for i in 0..all.len()
        invariant
            texts(all@) == rs,
            pane_views(out@) =~= panes_in(rs.take(i as int)),
    {
        proof {
            assert(rs.take(i + 1).drop_last() =~= rs.take(i as int));
            assert(rs.take(i + 1).last() == all@[i as int]@);
        }
        let ghost before = pane_views(out@);
        if let Some(cwd) = string_field(all[i].as_str(), "cwd") {
            let workspace_id = match string_field(all[i].as_str(), "workspace_id") {
                Some(id) => id,
                None => String::new(),
            };
            let pane = PaneCwd { workspace_id, cwd };
            out.push(pane);
            assert(pane_views(out@) =~= before.push(pane@));
        }
    }
    assert(texts(all@).len() == all@.len());
    assert(rs.take(rs.len() as int) =~= rs);
    out
}

/// What the records say of the workspaces' labels.
pub open spec fn labels_in(records: Seq<Seq<char>>) -> Map<Seq<char>, Seq<char>>
    decreases records.len(),
{
    if records.len() == 0 {
        Map::empty()
    } else {
        let before = labels_in(records.drop_last());
        match (field_in(records.last(), "workspace_id"@), field_in(records.last(), "label"@)) {
            (Some(id), Some(label)) => before.insert(id, label),
            _ => before,
        }
    }
}

/// Extract `workspace_id` -> `label` from a `workspace list` response.
pub fn parse_workspace_labels(json: &str) -> (r: Labels)
    ensures
        r@ == labels_in(records_in(json@)),
{
    let all = records(json);
    let ghost rs = records_in(json@);
    let mut out = Labels::new();
    assert(rs.take(0) =~= Seq::<Seq<char>>::empty());
    for i in 0..all.len()
        invariant
            texts(all@) == rs,
            out@ == labels_in(rs.take(i as int)),
    {
        proof {
            assert(rs.take(i + 1).drop_last() =~= rs.take(i as int));
            assert(rs.take(i + 1).last() == all@[i as int]@);
        }
        if let Some(id) = string_field(all[i].as_str(), "workspace_id") {
            if let Some(label) = string_field(all[i].as_str(), "label") {
                out.insert(id, label);
            }
        }
    }
    assert(texts(all@).len() == all@.len());
    assert(rs.take(rs.len() as int) =~= rs);
    out
}

/// The roots that panes reached, in the order of the panes.
pub open spec fn reached(roots: Seq<Option<String>>) -> Seq<Seq<char>>
    decreases roots.len(),
{
    if roots.len() == 0 {
        Seq::empty()
    } else {
        match roots.last() {
            Some(root) => reached(roots.drop_last()).push(root@),
            None => reached(roots.drop_last()),
        }
    }
}

/// The roots that panes reached, each once and in the order of their paths.
pub open spec fn distinct_roots(roots: Seq<Option<String>>) -> Seq<Seq<char>> {
    one_per_path(by_path(reached(roots), |p: Seq<char>| p), |p: Seq<char>| p)
}

/// The different labels of the workspaces whose panes reached a root.
pub open spec fn labels_of(
    panes: Seq<PaneCwd>,
    roots: Seq<Option<String>>,
    labels: Map<Seq<char>, Seq<char>>,
    root: Seq<char>,
) -> Seq<Seq<char>>
    decreases panes.len(),
{
    if panes.len() == 0 || roots.len() == 0 {
        Seq::empty()
    } else {
        let before = labels_of(panes.drop_last(), roots.drop_last(), labels, root);
        let id = panes.last().workspace_id@;
        match roots.last() {
            Some(r) => if same_path(r@, root) && labels.contains_key(id) && !before.contains(
                labels[id],
            ) {
                before.push(labels[id])
            } else {
                before
            },
            None => before,
        }
    }
}

/// The name of a directory, or its path where it has none.
pub open spec fn directory_name(root: Seq<char>) -> Seq<char> {
    match file_name_of(root) {
        Some(name) => name,
        None => root,
    }
}

/// A project's name: the label that its workspaces share, or the directory's
/// name where there is no label or several.
pub open spec fn project_name(labels: Seq<Seq<char>>, root: Seq<char>) -> Seq<char> {
    if labels.len() == 1 {
        labels[0]
    } else {
        directory_name(root)
    }
}

/// The name of a directory, or its path where it has none.
pub fn name_of_directory(root: &str) -> (r: String)
    ensures
        r@ == directory_name(root@),
{
    match file_name(root) {
        Some(name) => name,
        None => root.to_owned(),
    }
}

fn collect_labels(
    panes: &Vec<PaneCwd>,
    roots: &Vec<Option<String>>,
    labels: &Labels,
    root: &str,
) -> (r: Vec<String>)
    requires
        panes@.len() == roots@.len(),
    ensures
        texts(r@) == labels_of(panes@, roots@, labels@, root@),
{
    let mut out: Vec<String> = Vec::new();
    assert(panes@.take(0) =~= Seq::<PaneCwd>::empty());
    assert(texts(out@) =~= Seq::<Seq<char>>::empty());
    for i in 0..panes.len()
        invariant
            panes@.len() == roots@.len(),
            texts(out@) =~= labels_of(
                panes@.take(i as int),
                roots@.take(i as int),
                labels@,
                root@,
            ),
    {
        proof {
            assert(panes@.take(i + 1).drop_last() =~= panes@.take(i as int));
            assert(roots@.take(i + 1).drop_last() =~= roots@.take(i as int));
            assert(panes@.take(i + 1).last() == panes@[i as int]);
            assert(roots@.take(i + 1).last() == roots@[i as int]);
        }
        let ghost before = texts(out@);
        if let Some(r) = &roots[i] {
            if same_as(r.as_str(), root) {
                if let Some(label) = labels.get(panes[i].workspace_id.as_str()) {
                    if !holds_text(&out, label) {
                        out.push(label.clone());
                        assert(texts(out@) =~= before.push(label@));
                    }
                }
            }
        }
    }
    assert(panes@.take(panes@.len() as int) =~= panes@);
    assert(roots@.take(roots@.len() as int) =~= roots@);
    out
}

fn holds_text(list: &Vec<String>, one: &String) -> (r: bool)
    ensures
        r == texts(list@).contains(one@),
{
    for i in 0..list.len()
        invariant
            forall|j: int| 0 <= j < i ==> texts(list@)[j] != one@,
    {
        assert(texts(list@)[i as int] == list@[i as int]@);
        if list[i] == *one {
            return true;
        }
    }
    false
}

/// Turn pane directories into de-duplicated projects, in the order of their
/// paths.
///
/// `roots` says for each pane which repository its directory is in, if any: a
/// pane sitting in `~` or `/tmp` is not an error, just not a project. A
/// repository open under two differently-named workspaces cannot claim either
/// name unambiguously; its directory's name is the one thing that is
/// unambiguously about it.
pub fn projects_from(panes: &Vec<PaneCwd>, roots: &Vec<Option<String>>, labels: &Labels) -> (r: Vec<
    Project,
>)
    requires
        panes@.len() == roots@.len(),
    ensures
        project_views(r@) == distinct_roots(roots@).map_values(
            |root: Seq<char>|
                ProjectView {
                    root,
                    name: project_name(labels_of(panes@, roots@, labels@, root), root),
                },
        ),
{
    let mut found: Vec<String> = Vec::new();
    assert(roots@.take(0) =~= Seq::<Option<String>>::empty());
    assert(texts(found@) =~= Seq::<Seq<char>>::empty());
    for i in 0..roots.len()
        invariant
            texts(found@) =~= reached(roots@.take(i as int)),
    {
        proof {
            assert(roots@.take(i + 1).drop_last() =~= roots@.take(i as int));
            assert(roots@.take(i + 1).last() == roots@[i as int]);
        }
        let ghost before = texts(found@);
        if let Some(root) = &roots[i] {
            found.push(root.clone());
            assert(texts(found@) =~= before.push(root@));
        }
    }
    assert(roots@.take(roots@.len() as int) =~= roots@);
    proof {
        lemma_by_path_map(found@, |x: String| x.at(), |s: String| s@, |p: Seq<char>| p);
        lemma_one_per_path_map(
            by_path(found@, |x: String| x.at()),
            |x: String| x.at(),
            |s: String| s@,
            |p: Seq<char>| p,
        );
    }
    let distinct = dedup_by_path(sort_by_path(found));
    let ghost all = distinct_roots(roots@);
    let ghost f = |root: Seq<char>|
        ProjectView {
            root,
            name: project_name(labels_of(panes@, roots@, labels@, root), root),
        };
    assert(texts(distinct@) =~= all);
    let mut out: Vec<Project> = Vec::new();
    for i in 0..distinct.len()
        invariant
            panes@.len() == roots@.len(),
            texts(distinct@) == all,
            f == (|root: Seq<char>|
                ProjectView {
                    root,
                    name: project_name(labels_of(panes@, roots@, labels@, root), root),
                }),
            project_views(out@) =~= all.take(i as int).map_values(f),
    {
        assert(all[i as int] == distinct@[i as int]@);
        let root = distinct[i].clone();
        let mut own = collect_labels(panes, roots, labels, root.as_str());
        assert(texts(own@).len() == own@.len());
        let name = if own.len() == 1 {
            assert(texts(own@)[0] == own@[0]@);
            own.swap_remove(0)
        } else {
            name_of_directory(root.as_str())
        };
        let project = Project { root, name };
        let ghost before = project_views(out@);
        out.push(project);
        assert(project_views(out@) =~= before.push(project@));
        assert(project@ == f(all[i as int]));
        assert(all.take(i + 1) =~= all.take(i as int).push(all[i as int]));
    }
    assert(texts(distinct@).len() == distinct@.len());
    assert(all.take(all.len() as int) =~= all);
    out
}

/// The panes that a scope covers, from what `herdr pane list` printed.
///
/// None when herdr is unavailable — the caller falls back to the current
/// directory rather than failing, so the viewer still works when run straight
/// from a shell.
pub fn open_panes(scope: &Scope, pane_list: Option<&str>) -> (r: Vec<PaneCwd>)
    ensures
        match pane_list {
            Some(json) => pane_views(r@) == panes_in(records_in(json@)).filter(
                |p: PaneView| scope.covers(p.workspace_id),
            ),
            None => r@.len() == 0,
        },
{
    match pane_list {
        Some(json) => {
            let panes = parse_pane_cwds(json);
            proof {
                lemma_filter_panes(panes@, *scope);
            }
            scope.filter(panes)
        },
        None => Vec::new(),
    }
}

proof fn lemma_filter_panes(panes: Seq<PaneCwd>, scope: Scope)
    ensures
        pane_views(panes.filter(|p: PaneCwd| scope.covers(p.workspace_id@))) == pane_views(
            panes,
        ).filter(|p: PaneView| scope.covers(p.workspace_id)),
    decreases panes.len(),
{
    reveal(Seq::filter);
    let f = |p: PaneCwd| scope.covers(p.workspace_id@);
    let g = |p: PaneView| scope.covers(p.workspace_id);
    if panes.len() > 0 {
        lemma_filter_panes(panes.drop_last(), scope);
        assert(pane_views(panes).drop_last() =~= pane_views(panes.drop_last()));
        assert(pane_views(panes).last() == panes.last()@);
        assert(pane_views(panes.filter(f)) =~= pane_views(panes).filter(g));
    } else {
        assert(pane_views(panes.filter(f)) =~= pane_views(panes).filter(g));
    }
}

/// The projects that panes reach, given the repository that each is in and what
/// `herdr workspace list` printed.
pub fn open_projects(
    panes: &Vec<PaneCwd>,
    roots: &Vec<Option<String>>,
    workspace_list: Option<&str>,
) -> (r: Vec<Project>)
    requires
        panes@.len() == roots@.len(),
    ensures
        ({
            let labels = match workspace_list {
                Some(json) => labels_in(records_in(json@)),
                None => Map::empty(),
            };
            project_views(r@) == distinct_roots(roots@).map_values(
                |root: Seq<char>|
                    ProjectView {
                        root,
                        name: project_name(labels_of(panes@, roots@, labels, root), root),
                    },
            )
        }),
{
    let labels = match workspace_list {
        Some(json) => parse_workspace_labels(json),
        None => Labels::new(),
    };
    projects_from(panes, roots, &labels)
}

} // verus!
