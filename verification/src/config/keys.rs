//! Which key does what, and how a config file says so.
//!
//! # Why an action in between
//!
//! An event loop that matched keys and called methods would weld two decisions
//! together: what the key is, and what it does. This module splits them. A
//! [`Bindings`] maps chord to [`Action`]; the loop maps action to method.
//! Neither half knows about the other's spelling.
//!
//! # What is not here
//!
//! Some keys are not rebindable, and deliberately. `esc` backs out of whatever
//! covers the list — a reader who rebound it could lose the only way out of a
//! mode. `⏎` inside the history and branch lists picks the row under the
//! cursor, and `⇥` while writing a note moves the mark: those are answers to
//! "what is on screen", not global commands, and a table keyed by chord alone
//! cannot express them.

use vstd::prelude::*;
use vstd::string::*;

use crate::paths::{lemma_text_order, lemma_text_transitive, text_before, text_less};
use crate::seqs::join_with;
use crate::text::{chars_of, join, same, strip_prefix, texts};

pub mod usual;

verus! {

/// Something the reader can ask for.
///
/// Named for what the reader wants rather than for the key that means it:
/// `select-next` survives `j` being moved somewhere else.
#[derive(Debug, Clone, Copy, PartialEq, Eq, Hash, Structural)]
pub enum Action {
    Quit,
    Help,
    Refresh,
    SelectNext,
    SelectPrevious,
    ToggleCollapsed,
    ScrollDiffDown,
    ScrollDiffUp,
    PageDiffDown,
    PageDiffUp,
    ScrollDiffHome,
    ScrollDiffEnd,
    ToggleBase,
    ToggleSplitDiff,
    ToggleShowAll,
    ToggleScope,
    ToggleBlame,
    ToggleHistory,
    ToggleStashes,
    ToggleBranches,
    ToggleGraph,
    BeginFilter,
    BeginSearch,
    SearchNext,
    SearchPrevious,
    CursorDown,
    CursorUp,
    BeginAnnotation,
    RemoveAnnotation,
    SendReview,
    OpenEditor,
    BeginPrompt,
    GitMenu,
}

/// How many actions there are.
pub const ACTION_COUNT: u16 = 33;

/// The name a config file uses for an action.
pub open spec fn action_name(action: Action) -> Seq<char> {
    match action {
        Action::Quit => "quit"@,
        Action::Help => "help"@,
        Action::Refresh => "refresh"@,
        Action::SelectNext => "select-next"@,
        Action::SelectPrevious => "select-previous"@,
        Action::ToggleCollapsed => "toggle-collapsed"@,
        Action::ScrollDiffDown => "scroll-diff-down"@,
        Action::ScrollDiffUp => "scroll-diff-up"@,
        Action::PageDiffDown => "page-diff-down"@,
        Action::PageDiffUp => "page-diff-up"@,
        Action::ScrollDiffHome => "scroll-diff-home"@,
        Action::ScrollDiffEnd => "scroll-diff-end"@,
        Action::ToggleBase => "toggle-base"@,
        Action::ToggleSplitDiff => "toggle-split-diff"@,
        Action::ToggleShowAll => "toggle-show-all"@,
        Action::ToggleScope => "toggle-scope"@,
        Action::ToggleBlame => "toggle-blame"@,
        Action::ToggleHistory => "toggle-history"@,
        Action::ToggleStashes => "toggle-stashes"@,
        Action::ToggleBranches => "toggle-branches"@,
        Action::ToggleGraph => "toggle-graph"@,
        Action::BeginFilter => "begin-filter"@,
        Action::BeginSearch => "begin-search"@,
        Action::SearchNext => "search-next"@,
        Action::SearchPrevious => "search-previous"@,
        Action::CursorDown => "cursor-down"@,
        Action::CursorUp => "cursor-up"@,
        Action::BeginAnnotation => "begin-annotation"@,
        Action::RemoveAnnotation => "remove-annotation"@,
        Action::SendReview => "send-review"@,
        Action::OpenEditor => "open-editor"@,
        Action::BeginPrompt => "begin-prompt"@,
        Action::GitMenu => "git-menu"@,
    }
}

/// The action a config file named, if it named one at all.
pub open spec fn action_named(name: Seq<char>) -> Option<Action> {
    if exists|a: Action| action_name(a) == name {
        Some(choose|a: Action| action_name(a) == name)
    } else {
        None
    }
}

/// Where the names of two actions can be told apart: their length, their fourth
/// character and the fourth from their end.
spec fn stamp(name: Seq<char>) -> (nat, char, char) {
    (name.len(), name[3], name[name.len() - 4])
}

/// The stamp of each action's name, written out.
spec fn stamped(action: Action) -> (nat, char, char) {
    match action {
        Action::Quit => (4, 't', 'q'),
        Action::Help => (4, 'p', 'h'),
        Action::Refresh => (7, 'r', 'r'),
        Action::SelectNext => (11, 'e', 'n'),
        Action::SelectPrevious => (15, 'e', 'i'),
        Action::ToggleCollapsed => (16, 'g', 'p'),
        Action::ScrollDiffDown => (16, 'o', 'd'),
        Action::ScrollDiffUp => (14, 'o', 'f'),
        Action::PageDiffDown => (14, 'e', 'd'),
        Action::PageDiffUp => (12, 'e', 'f'),
        Action::ScrollDiffHome => (16, 'o', 'h'),
        Action::ScrollDiffEnd => (15, 'o', '-'),
        Action::ToggleBase => (11, 'g', 'b'),
        Action::ToggleSplitDiff => (17, 'g', 'd'),
        Action::ToggleShowAll => (15, 'g', '-'),
        Action::ToggleScope => (12, 'g', 'c'),
        Action::ToggleBlame => (12, 'g', 'l'),
        Action::ToggleHistory => (14, 'g', 't'),
        Action::ToggleStashes => (14, 'g', 's'),
        Action::ToggleBranches => (15, 'g', 'c'),
        Action::ToggleGraph => (12, 'g', 'r'),
        Action::BeginFilter => (12, 'i', 'l'),
        Action::BeginSearch => (12, 'i', 'a'),
        Action::SearchNext => (11, 'r', 'n'),
        Action::SearchPrevious => (15, 'r', 'i'),
        Action::CursorDown => (11, 's', 'd'),
        Action::CursorUp => (9, 's', 'r'),
        Action::BeginAnnotation => (16, 'i', 't'),
        Action::RemoveAnnotation => (17, 'o', 't'),
        Action::SendReview => (11, 'd', 'v'),
        Action::OpenEditor => (11, 'n', 'i'),
        Action::BeginPrompt => (12, 'i', 'o'),
        Action::GitMenu => (8, '-', 'm'),
    }
}

proof fn lemma_stamped(action: Action)
    ensures
        stamp(action_name(action)) == stamped(action),
{
    match action {
        Action::Quit => {
            reveal_strlit("quit");
        },
        Action::Help => {
            reveal_strlit("help");
        },
        Action::Refresh => {
            reveal_strlit("refresh");
        },
        Action::SelectNext => {
            reveal_strlit("select-next");
        },
        Action::SelectPrevious => {
            reveal_strlit("select-previous");
        },
        Action::ToggleCollapsed => {
            reveal_strlit("toggle-collapsed");
        },
        Action::ScrollDiffDown => {
            reveal_strlit("scroll-diff-down");
        },
        Action::ScrollDiffUp => {
            reveal_strlit("scroll-diff-up");
        },
        Action::PageDiffDown => {
            reveal_strlit("page-diff-down");
        },
        Action::PageDiffUp => {
            reveal_strlit("page-diff-up");
        },
        Action::ScrollDiffHome => {
            reveal_strlit("scroll-diff-home");
        },
        Action::ScrollDiffEnd => {
            reveal_strlit("scroll-diff-end");
        },
        Action::ToggleBase => {
            reveal_strlit("toggle-base");
        },
        Action::ToggleSplitDiff => {
            reveal_strlit("toggle-split-diff");
        },
        Action::ToggleShowAll => {
            reveal_strlit("toggle-show-all");
        },
        Action::ToggleScope => {
            reveal_strlit("toggle-scope");
        },
        Action::ToggleBlame => {
            reveal_strlit("toggle-blame");
        },
        Action::ToggleHistory => {
            reveal_strlit("toggle-history");
        },
        Action::ToggleStashes => {
            reveal_strlit("toggle-stashes");
        },
        Action::ToggleBranches => {
            reveal_strlit("toggle-branches");
        },
        Action::ToggleGraph => {
            reveal_strlit("toggle-graph");
        },
        Action::BeginFilter => {
            reveal_strlit("begin-filter");
        },
        Action::BeginSearch => {
            reveal_strlit("begin-search");
        },
        Action::SearchNext => {
            reveal_strlit("search-next");
        },
        Action::SearchPrevious => {
            reveal_strlit("search-previous");
        },
        Action::CursorDown => {
            reveal_strlit("cursor-down");
        },
        Action::CursorUp => {
            reveal_strlit("cursor-up");
        },
        Action::BeginAnnotation => {
            reveal_strlit("begin-annotation");
        },
        Action::RemoveAnnotation => {
            reveal_strlit("remove-annotation");
        },
        Action::SendReview => {
            reveal_strlit("send-review");
        },
        Action::OpenEditor => {
            reveal_strlit("open-editor");
        },
        Action::BeginPrompt => {
            reveal_strlit("begin-prompt");
        },
        Action::GitMenu => {
            reveal_strlit("git-menu");
        },
    }
}

/// No two actions share a name.
pub proof fn action_names_are_distinct(a: Action, b: Action)
    requires
        action_name(a) == action_name(b),
    ensures
        a == b,
{
    lemma_stamped(a);
    lemma_stamped(b);
}

/// Every action survives a round trip through its name.
pub proof fn action_names_read_back(action: Action)
    ensures
        action_named(action_name(action)) == Some(action),
{
    let found = choose|a: Action| action_name(a) == action_name(action);
    action_names_are_distinct(found, action);
}

/// Every action is listed, in the place that is written here.
pub proof fn every_action_is_listed(action: Action)
    ensures
        Action::ALL@.contains(action),
{
    match action {
        Action::Quit => {
            assert(Action::ALL@[0] == action);
        },
        Action::Help => {
            assert(Action::ALL@[1] == action);
        },
        Action::Refresh => {
            assert(Action::ALL@[2] == action);
        },
        Action::SelectNext => {
            assert(Action::ALL@[3] == action);
        },
        Action::SelectPrevious => {
            assert(Action::ALL@[4] == action);
        },
        Action::ToggleCollapsed => {
            assert(Action::ALL@[5] == action);
        },
        Action::ScrollDiffDown => {
            assert(Action::ALL@[6] == action);
        },
        Action::ScrollDiffUp => {
            assert(Action::ALL@[7] == action);
        },
        Action::PageDiffDown => {
            assert(Action::ALL@[8] == action);
        },
        Action::PageDiffUp => {
            assert(Action::ALL@[9] == action);
        },
        Action::ScrollDiffHome => {
            assert(Action::ALL@[10] == action);
        },
        Action::ScrollDiffEnd => {
            assert(Action::ALL@[11] == action);
        },
        Action::ToggleBase => {
            assert(Action::ALL@[12] == action);
        },
        Action::ToggleSplitDiff => {
            assert(Action::ALL@[13] == action);
        },
        Action::ToggleShowAll => {
            assert(Action::ALL@[14] == action);
        },
        Action::ToggleScope => {
            assert(Action::ALL@[15] == action);
        },
        Action::ToggleBlame => {
            assert(Action::ALL@[16] == action);
        },
        Action::ToggleHistory => {
            assert(Action::ALL@[17] == action);
        },
        Action::ToggleStashes => {
            assert(Action::ALL@[18] == action);
        },
        Action::ToggleBranches => {
            assert(Action::ALL@[19] == action);
        },
        Action::ToggleGraph => {
            assert(Action::ALL@[20] == action);
        },
        Action::BeginFilter => {
            assert(Action::ALL@[21] == action);
        },
        Action::BeginSearch => {
            assert(Action::ALL@[22] == action);
        },
        Action::SearchNext => {
            assert(Action::ALL@[23] == action);
        },
        Action::SearchPrevious => {
            assert(Action::ALL@[24] == action);
        },
        Action::CursorDown => {
            assert(Action::ALL@[25] == action);
        },
        Action::CursorUp => {
            assert(Action::ALL@[26] == action);
        },
        Action::BeginAnnotation => {
            assert(Action::ALL@[27] == action);
        },
        Action::RemoveAnnotation => {
            assert(Action::ALL@[28] == action);
        },
        Action::SendReview => {
            assert(Action::ALL@[29] == action);
        },
        Action::OpenEditor => {
            assert(Action::ALL@[30] == action);
        },
        Action::BeginPrompt => {
            assert(Action::ALL@[31] == action);
        },
        Action::GitMenu => {
            assert(Action::ALL@[32] == action);
        },
    }
}

impl Action {
    /// Every action, so a config file can be checked against the whole set and
    /// the help screen can be sure it has not forgotten one.
    pub const ALL: [Action; 33] = [
        Action::Quit,
        Action::Help,
        Action::Refresh,
        Action::SelectNext,
        Action::SelectPrevious,
        Action::ToggleCollapsed,
        Action::ScrollDiffDown,
        Action::ScrollDiffUp,
        Action::PageDiffDown,
        Action::PageDiffUp,
        Action::ScrollDiffHome,
        Action::ScrollDiffEnd,
        Action::ToggleBase,
        Action::ToggleSplitDiff,
        Action::ToggleShowAll,
        Action::ToggleScope,
        Action::ToggleBlame,
        Action::ToggleHistory,
        Action::ToggleStashes,
        Action::ToggleBranches,
        Action::ToggleGraph,
        Action::BeginFilter,
        Action::BeginSearch,
        Action::SearchNext,
        Action::SearchPrevious,
        Action::CursorDown,
        Action::CursorUp,
        Action::BeginAnnotation,
        Action::RemoveAnnotation,
        Action::SendReview,
        Action::OpenEditor,
        Action::BeginPrompt,
        Action::GitMenu,
    ];

    /// The name a config file uses for this action.
    pub fn name(self) -> (r: &'static str)
        ensures
            r@ == action_name(self),
    {
        match self {
            Action::Quit => "quit",
            Action::Help => "help",
            Action::Refresh => "refresh",
            Action::SelectNext => "select-next",
            Action::SelectPrevious => "select-previous",
            Action::ToggleCollapsed => "toggle-collapsed",
            Action::ScrollDiffDown => "scroll-diff-down",
            Action::ScrollDiffUp => "scroll-diff-up",
            Action::PageDiffDown => "page-diff-down",
            Action::PageDiffUp => "page-diff-up",
            Action::ScrollDiffHome => "scroll-diff-home",
            Action::ScrollDiffEnd => "scroll-diff-end",
            Action::ToggleBase => "toggle-base",
            Action::ToggleSplitDiff => "toggle-split-diff",
            Action::ToggleShowAll => "toggle-show-all",
            Action::ToggleScope => "toggle-scope",
            Action::ToggleBlame => "toggle-blame",
            Action::ToggleHistory => "toggle-history",
            Action::ToggleStashes => "toggle-stashes",
            Action::ToggleBranches => "toggle-branches",
            Action::ToggleGraph => "toggle-graph",
            Action::BeginFilter => "begin-filter",
            Action::BeginSearch => "begin-search",
            Action::SearchNext => "search-next",
            Action::SearchPrevious => "search-previous",
            Action::CursorDown => "cursor-down",
            Action::CursorUp => "cursor-up",
            Action::BeginAnnotation => "begin-annotation",
            Action::RemoveAnnotation => "remove-annotation",
            Action::SendReview => "send-review",
            Action::OpenEditor => "open-editor",
            Action::BeginPrompt => "begin-prompt",
            Action::GitMenu => "git-menu",
        }
    }

    /// The action a config file named, if it named one at all.
    ///
    /// Searched through [`Action::ALL`] rather than written as a second match,
    /// so a new action cannot be spelled one way here and another way there.
    pub fn parse(name: &str) -> (r: Option<Self>)
        ensures
            r == action_named(name@),
    {
        let all = Self::ALL;
        for i in 0..all.len()
            invariant
                all == Self::ALL,
                forall|j: int| 0 <= j < i ==> action_name(#[trigger] all@[j]) != name@,
        {
            if same(all[i].name(), name) {
                proof {
                    action_names_read_back(all@[i as int]);
                }
                return Some(all[i]);
            }
        }
        assert forall|a: Action| action_name(a) != name@ by {
            every_action_is_listed(a);
        }
        None
    }
}

/// A key on the keyboard, shifted characters counting as characters of their
/// own.
#[derive(Debug, Clone, Copy, PartialEq, Eq, Hash, Structural)]
pub enum Key {
    Char(char),
    Enter,
    Tab,
    BackTab,
    Up,
    Down,
    Left,
    Right,
    Home,
    End,
    PageUp,
    PageDown,
    Backspace,
    Delete,
    Insert,
}

/// Which modifiers were held with a key.
#[derive(Debug, Clone, Copy, PartialEq, Eq, Hash, Structural)]
pub struct Modifiers {
    pub control: bool,
    pub shift: bool,
    pub alt: bool,
}

impl Modifiers {
    /// Nothing held.
    pub fn none() -> (r: Self)
        ensures
            r == (Modifiers { control: false, shift: false, alt: false }),
    {
        Modifiers { control: false, shift: false, alt: false }
    }

    /// Control, and nothing else.
    pub fn control() -> (r: Self)
        ensures
            r == (Modifiers { control: true, shift: false, alt: false }),
    {
        Modifiers { control: true, shift: false, alt: false }
    }
}

/// A key, with or without control.
///
/// Only control is carried. Shift is already in the character — `K` and `k`
/// arrive as different keys — and alt is not used by anything here, so a
/// modifier set would be three fields of which two are always empty.
#[derive(Debug, Clone, Copy, PartialEq, Eq, Hash, Structural)]
pub struct Chord {
    pub code: Key,
    pub control: bool,
}

/// How a key is written in a config file.
pub open spec fn key_name(key: Key) -> Seq<char> {
    match key {
        Key::Char(c) => if c == ' ' {
            "space"@
        } else {
            seq![c]
        },
        Key::Enter => "enter"@,
        Key::Tab => "tab"@,
        Key::BackTab => "back-tab"@,
        Key::Up => "up"@,
        Key::Down => "down"@,
        Key::Left => "left"@,
        Key::Right => "right"@,
        Key::Home => "home"@,
        Key::End => "end"@,
        Key::PageUp => "page-up"@,
        Key::PageDown => "page-down"@,
        Key::Backspace => "backspace"@,
        Key::Delete => "delete"@,
        Key::Insert => "insert"@,
    }
}

/// The key that a config file wrote, if it wrote one: a single character is
/// itself, and the other keys go by their names.
pub open spec fn key_named(name: Seq<char>) -> Option<Key> {
    if name.len() == 1 {
        Some(Key::Char(name[0]))
    } else if exists|k: Key| key_name(k) == name {
        Some(choose|k: Key| key_name(k) == name)
    } else {
        None
    }
}

/// How a chord is written in a config file.
pub open spec fn spelled(chord: Chord) -> Seq<char> {
    if chord.control {
        "ctrl-"@ + key_name(chord.code)
    } else {
        key_name(chord.code)
    }
}

/// The names of keys that are longer than one character have lengths and
/// characters of their own.
proof fn lemma_key_names(a: Key, b: Key)
    ensures
        key_name(a).len() >= 1,
        key_name(a).len() == 1 <==> (a matches Key::Char(c) && c != ' '),
        key_name(a) == key_name(b) ==> a == b,
        !("ctrl-"@.is_prefix_of(key_name(a))),
        "ctrl-"@.len() == 5,
{
    reveal_strlit("ctrl-");
    reveal_strlit("space");
    reveal_strlit("enter");
    reveal_strlit("tab");
    reveal_strlit("back-tab");
    reveal_strlit("up");
    reveal_strlit("down");
    reveal_strlit("left");
    reveal_strlit("right");
    reveal_strlit("home");
    reveal_strlit("end");
    reveal_strlit("page-up");
    reveal_strlit("page-down");
    reveal_strlit("backspace");
    reveal_strlit("delete");
    reveal_strlit("insert");
    let x = key_name(a);
    let y = key_name(b);
    if x == y {
        assert(x[0] == y[0]);
        if x.len() >= 2 {
            assert(x[1] == y[1]);
            assert(x[x.len() - 2] == y[x.len() - 2]);
            assert(x[x.len() - 1] == y[x.len() - 1]);
        }
    }
    if "ctrl-"@.is_prefix_of(x) {
        assert(x[0] == x.subrange(0, 5)[0]);
        assert(x[0] == 'c');
    }
}

/// What a key is called is read as that key again.
pub proof fn key_names_read_back(key: Key)
    ensures
        key_named(key_name(key)) == Some(key),
{
    lemma_key_names(key, key);
    if key_name(key).len() != 1 {
        let found = choose|k: Key| key_name(k) == key_name(key);
        lemma_key_names(found, key);
    }
}

/// Nothing is written in a config file that does not read back: the help screen
/// never names a key that the config file refuses.
pub proof fn spellings_read_back(chord: Chord)
    ensures
        chord_in(spelled(chord)) == Ok::<Chord, Seq<char>>(chord),
{
    let name = key_name(chord.code);
    lemma_key_names(chord.code, chord.code);
    key_names_read_back(chord.code);
    if chord.control {
        assert("ctrl-"@.is_prefix_of("ctrl-"@ + name)) by {
            assert(("ctrl-"@ + name).subrange(0, 5) =~= "ctrl-"@);
        }
        assert(("ctrl-"@ + name).skip(5) =~= name);
    }
}

/// Two chords are never written alike.
pub proof fn spellings_are_distinct(a: Chord, b: Chord)
    requires
        spelled(a) == spelled(b),
    ensures
        a == b,
{
    spellings_read_back(a);
    spellings_read_back(b);
}

/// What `Debug` writes for a text: the text in double quotes, with whatever
/// would not print escaped.
pub uninterp spec fn quoted(text: Seq<char>) -> Seq<char>;

/// Whether a text is made of printable ASCII characters that need no escape
/// between double quotes.
pub open spec fn prints_plainly(text: Seq<char>) -> bool {
    forall|i: int|
        0 <= i < text.len() ==> ' ' <= #[trigger] text[i] <= '~' && text[i] != '"' && text[i]
            != '\\'
}

/// `Debug` for `str`, through `format!`: the result depends on the text alone,
/// and a text of printable ASCII without quotes and backslashes stands between
/// the quotes as it is. What is written for other characters is left unsaid.
#[verifier::external_body]
pub(crate) fn quote(text: &str) -> (r: String)
    ensures
        r@ == quoted(text@),
        prints_plainly(text@) ==> r@ == "\""@ + text@ + "\""@,
{
    format!("{text:?}")
}

/// The chord that a config file wrote, or what is wrong with it.
pub open spec fn chord_in(text: Seq<char>) -> Result<Chord, Seq<char>> {
    let control = "ctrl-"@.is_prefix_of(text);
    let rest = if control {
        text.skip("ctrl-"@.len() as int)
    } else {
        text
    };
    if rest.len() == 0 {
        Err("empty key: "@ + quoted(text))
    } else {
        match key_named(rest) {
            Some(code) => Ok(Chord { code, control }),
            None => Err("unknown key: "@ + quoted(rest)),
        }
    }
}

/// A result whose error is a text, by what the text says.
pub open spec fn outcome<T>(r: Result<T, String>) -> Result<T, Seq<char>> {
    match r {
        Ok(v) => Ok(v),
        Err(e) => Err(e@),
    }
}

/// The key that a name of more than one character stands for.
fn named_key(name: &str) -> (r: Option<Key>)
    requires
        name@.len() > 1,
    ensures
        r == key_named(name@),
{
    let found = if same(name, "space") {
        Some(Key::Char(' '))
    } else if same(name, "enter") {
        Some(Key::Enter)
    } else if same(name, "tab") {
        Some(Key::Tab)
    } else if same(name, "back-tab") {
        Some(Key::BackTab)
    } else if same(name, "up") {
        Some(Key::Up)
    } else if same(name, "down") {
        Some(Key::Down)
    } else if same(name, "left") {
        Some(Key::Left)
    } else if same(name, "right") {
        Some(Key::Right)
    } else if same(name, "home") {
        Some(Key::Home)
    } else if same(name, "end") {
        Some(Key::End)
    } else if same(name, "page-up") {
        Some(Key::PageUp)
    } else if same(name, "page-down") {
        Some(Key::PageDown)
    } else if same(name, "backspace") {
        Some(Key::Backspace)
    } else if same(name, "delete") {
        Some(Key::Delete)
    } else if same(name, "insert") {
        Some(Key::Insert)
    } else {
        None
    };
    proof {
        match found {
            Some(key) => key_names_read_back(key),
            None => {
                assert forall|k: Key| key_name(k) != name@ by {
                    lemma_key_names(k, k);
                }
            },
        }
    }
    found
}

impl Chord {
    pub fn plain(code: Key) -> (r: Self)
        ensures
            r == (Chord { code, control: false }),
    {
        Chord { code, control: false }
    }

    pub fn ctrl(code: Key) -> (r: Self)
        ensures
            r == (Chord { code, control: true }),
    {
        Chord { code, control: true }
    }

    /// The chord a keypress amounts to.
    ///
    /// Modifiers other than control are dropped rather than compared: a
    /// terminal may report shift alongside an already-capital character, and
    /// insisting the sets match exactly would make `K` stop working on it.
    pub fn of(code: Key, modifiers: Modifiers) -> (r: Self)
        ensures
            r == (Chord { code, control: modifiers.control }),
    {
        Chord { code, control: modifiers.control }
    }

    /// Read a chord from its config spelling: `j`, `ctrl-c`, `page-down`.
    ///
    /// Named keys are spelled in lower case with hyphens; a single character
    /// stands for itself, case-sensitively, so `K` and `k` are different keys
    /// exactly as they are on the keyboard.
    pub fn parse(text: &str) -> (r: Result<Self, String>)
        ensures
            outcome(r) == chord_in(text@),
    {
        let (control, rest) = match strip_prefix(text, "ctrl-") {
            Some(rest) => (true, rest),
            None => (false, text.to_owned()),
        };
        let chars = chars_of(rest.as_str());
        if chars.len() == 0 {
            return Err("empty key: ".to_owned().concat(quote(text).as_str()));
        }
        if chars.len() == 1 {
            return Ok(Chord { code: Key::Char(chars[0]), control });
        }
        match named_key(rest.as_str()) {
            Some(code) => Ok(Chord { code, control }),
            None => Err("unknown key: ".to_owned().concat(quote(rest.as_str()).as_str())),
        }
    }
}

/// How a chord is written in a config file, and shown in the key reference.
pub fn spell(chord: Chord) -> (r: String)
    ensures
        r@ == spelled(chord),
{
    let name = match chord.code {
        Key::Char(c) => if c == ' ' {
            "space".to_owned()
        } else {
            let mut one = String::new();
            one.push(c);
            assert(one@ =~= seq![c]);
            one
        },
        Key::Enter => "enter".to_owned(),
        Key::Tab => "tab".to_owned(),
        Key::BackTab => "back-tab".to_owned(),
        Key::Up => "up".to_owned(),
        Key::Down => "down".to_owned(),
        Key::Left => "left".to_owned(),
        Key::Right => "right".to_owned(),
        Key::Home => "home".to_owned(),
        Key::End => "end".to_owned(),
        Key::PageUp => "page-up".to_owned(),
        Key::PageDown => "page-down".to_owned(),
        Key::Backspace => "backspace".to_owned(),
        Key::Delete => "delete".to_owned(),
        Key::Insert => "insert".to_owned(),
    };
    if chord.control {
        "ctrl-".to_owned().concat(name.as_str())
    } else {
        name
    }
}

/// How a key is shown to a reader, given the name a config file uses.
pub open spec fn symbol_of(key: Seq<char>) -> Seq<char> {
    if key == "down"@ {
        "↓"@
    } else if key == "up"@ {
        "↑"@
    } else if key == "left"@ {
        "←"@
    } else if key == "right"@ {
        "→"@
    } else if key == "enter"@ {
        "⏎"@
    } else if key == "tab"@ {
        "⇥"@
    } else if key == "back-tab"@ {
        "⇧⇥"@
    } else if key == "space"@ {
        "␣"@
    } else {
        key
    }
}

/// How a key is shown to a reader, given the name a config file uses.
///
/// The arrows and `⏎` are what the key reference has always drawn: a reader
/// looking for the down arrow scans for the glyph on their keyboard, not for
/// the word "down".
pub fn symbol_for(key: &str) -> (r: String)
    ensures
        r@ == symbol_of(key@),
{
    if same(key, "down") {
        "↓".to_owned()
    } else if same(key, "up") {
        "↑".to_owned()
    } else if same(key, "left") {
        "←".to_owned()
    } else if same(key, "right") {
        "→".to_owned()
    } else if same(key, "enter") {
        "⏎".to_owned()
    } else if same(key, "tab") {
        "⇥".to_owned()
    } else if same(key, "back-tab") {
        "⇧⇥".to_owned()
    } else if same(key, "space") {
        "␣".to_owned()
    } else {
        key.to_owned()
    }
}

/// What a `[keys]` entry says: an action name, or `false` to unbind.
#[derive(Debug, PartialEq, Eq)]
pub enum KeyBinding {
    Named(String),
    Unbound,
}

/// Which key does what.
///
/// A table rather than a match so that it can be replaced at startup. Two keys
/// may name the same action — `j` and `Down` both select the next row — which
/// is why this maps chord to action and not the other way round.
#[derive(Debug, PartialEq, Eq)]
pub struct Bindings {
    entries: Vec<(Chord, Action)>,
}

/// The table that a list of entries amounts to, a later entry replacing an
/// earlier one for the same chord.
pub open spec fn table(entries: Seq<(Chord, Action)>) -> Map<Chord, Action>
    decreases entries.len(),
{
    if entries.len() == 0 {
        Map::empty()
    } else {
        table(entries.drop_last()).insert(entries.last().0, entries.last().1)
    }
}

/// The keys of a reader who has set none.
pub open spec fn default_entries() -> Seq<(Chord, Action)> {
    seq![
        (Chord { code: Key::Char('q'), control: false }, Action::Quit),
        (Chord { code: Key::Char('c'), control: true }, Action::Quit),
        (Chord { code: Key::Char('?'), control: false }, Action::Help),
        (Chord { code: Key::Char('h'), control: false }, Action::Help),
        (Chord { code: Key::Char('r'), control: false }, Action::Refresh),
        (Chord { code: Key::Char('j'), control: false }, Action::SelectNext),
        (Chord { code: Key::Down, control: false }, Action::SelectNext),
        (Chord { code: Key::Char('k'), control: false }, Action::SelectPrevious),
        (Chord { code: Key::Up, control: false }, Action::SelectPrevious),
        (Chord { code: Key::Enter, control: false }, Action::ToggleCollapsed),
        (Chord { code: Key::Char(' '), control: false }, Action::ToggleCollapsed),
        (Chord { code: Key::Char('J'), control: false }, Action::ScrollDiffDown),
        (Chord { code: Key::Char('K'), control: false }, Action::ScrollDiffUp),
        (Chord { code: Key::Char('f'), control: false }, Action::PageDiffDown),
        (Chord { code: Key::PageDown, control: false }, Action::PageDiffDown),
        (Chord { code: Key::Char('b'), control: false }, Action::PageDiffUp),
        (Chord { code: Key::PageUp, control: false }, Action::PageDiffUp),
        (Chord { code: Key::Char('g'), control: false }, Action::ScrollDiffHome),
        (Chord { code: Key::Home, control: false }, Action::ScrollDiffHome),
        (Chord { code: Key::Char('G'), control: false }, Action::ScrollDiffEnd),
        (Chord { code: Key::End, control: false }, Action::ScrollDiffEnd),
        (Chord { code: Key::Char('m'), control: false }, Action::ToggleBase),
        (Chord { code: Key::Char('a'), control: false }, Action::ToggleShowAll),
        (Chord { code: Key::Char('w'), control: false }, Action::ToggleScope),
        (Chord { code: Key::Char('V'), control: false }, Action::ToggleSplitDiff),
        (Chord { code: Key::Char('B'), control: false }, Action::ToggleBlame),
        (Chord { code: Key::Char('H'), control: false }, Action::ToggleHistory),
        (Chord { code: Key::Char('S'), control: false }, Action::ToggleStashes),
        (Chord { code: Key::Char('W'), control: false }, Action::ToggleBranches),
        (Chord { code: Key::Char('L'), control: false }, Action::ToggleGraph),
        (Chord { code: Key::Char('/'), control: false }, Action::BeginFilter),
        (Chord { code: Key::Char('s'), control: false }, Action::BeginSearch),
        (Chord { code: Key::Char('n'), control: false }, Action::SearchNext),
        (Chord { code: Key::Char('N'), control: false }, Action::SearchPrevious),
        (Chord { code: Key::Tab, control: false }, Action::CursorDown),
        (Chord { code: Key::BackTab, control: false }, Action::CursorUp),
        (Chord { code: Key::Char('A'), control: false }, Action::BeginAnnotation),
        (Chord { code: Key::Char('D'), control: false }, Action::RemoveAnnotation),
        (Chord { code: Key::Char('R'), control: false }, Action::SendReview),
        (Chord { code: Key::Char('e'), control: false }, Action::OpenEditor),
        (Chord { code: Key::Char('c'), control: false }, Action::BeginPrompt),
        (Chord { code: Key::Char('Y'), control: false }, Action::GitMenu),
    ]
}

/// The bindings after one `[keys]` entry, or what is wrong with it.
pub open spec fn entry_applied(
    map: Map<Chord, Action>,
    key: Seq<char>,
    binding: KeyBinding,
) -> Result<Map<Chord, Action>, Seq<char>> {
    match chord_in(key) {
        Err(e) => Err(e),
        Ok(chord) => match binding {
            KeyBinding::Unbound => Ok(map.remove(chord)),
            KeyBinding::Named(name) => match action_named(name@) {
                Some(action) => Ok(map.insert(chord, action)),
                None => Err(
                    "unknown action "@ + quoted(name@) + " bound to "@ + quoted(key),
                ),
            },
        },
    }
}

/// The bindings after `[keys]` entries in turn, up to the first that is wrong,
/// and what is wrong with it.
pub open spec fn entries_applied(
    map: Map<Chord, Action>,
    entries: Seq<(String, KeyBinding)>,
) -> (Map<Chord, Action>, Result<(), Seq<char>>)
    decreases entries.len(),
{
    if entries.len() == 0 {
        (map, Ok(()))
    } else {
        match entry_applied(map, entries[0].0@, entries[0].1) {
            Ok(next) => entries_applied(next, entries.skip(1)),
            Err(e) => (map, Err(e)),
        }
    }
}

/// Whether texts are in strictly ascending order.
pub open spec fn ascending(keys: Seq<Seq<char>>) -> bool {
    forall|i: int, j: int| 0 <= i < j < keys.len() ==> text_less(#[trigger] keys[i], #[trigger] keys[j])
}

/// Whether a list holds the spelling of every chord bound to an action, and
/// nothing else, in the order of the spellings.
pub open spec fn lists_keys(keys: Seq<Seq<char>>, map: Map<Chord, Action>, action: Action) -> bool {
    &&& ascending(keys)
    &&& forall|chord: Chord|
        keys.contains(#[trigger] spelled(chord)) <==> map.contains_key(chord) && map[chord]
            == action
    &&& forall|i: int| 0 <= i < keys.len() ==> is_spelling(#[trigger] keys[i])
}

/// Whether a text is how some chord is spelled.
pub open spec fn is_spelling(text: Seq<char>) -> bool {
    exists|chord: Chord| spelled(chord) == text
}

proof fn lemma_ascending_unique(a: Seq<Seq<char>>, b: Seq<Seq<char>>)
    requires
        ascending(a),
        ascending(b),
        forall|t: Seq<char>| #[trigger] a.contains(t) <==> b.contains(t),
    ensures
        a == b,
    decreases a.len(),
{
    if a.len() == 0 {
        if b.len() > 0 {
            assert(b.contains(b[0]));
            assert(a.contains(b[0]));
        }
        assert(a =~= b);
    } else {
        let x = a.last();
        assert(a.contains(x));
        assert(b.contains(x));
        let y = b.last();
        assert(b.contains(y));
        assert(a.contains(y));
        let i = a.index_of(y);
        let j = b.index_of(x);
        lemma_text_order(x, y);
        assert(x == y) by {
            if i < a.len() - 1 && j < b.len() - 1 {
                assert(text_less(a[i], a[a.len() - 1]));
                assert(text_less(b[j], b[b.len() - 1]));
            }
        }
        let p = a.drop_last();
        let q = b.drop_last();
        assert forall|t: Seq<char>| #[trigger] p.contains(t) <==> q.contains(t) by {
            lemma_text_order(t, t);
            if p.contains(t) {
                let k = p.index_of(t);
                assert(a[k] == t);
                assert(text_less(a[k], a[a.len() - 1]));
                assert(a.contains(t));
                assert(b.contains(t));
                let m = b.index_of(t);
                assert(q[m] == t);
            }
            if q.contains(t) {
                let k = q.index_of(t);
                assert(b[k] == t);
                assert(text_less(b[k], b[b.len() - 1]));
                assert(b.contains(t));
                assert(a.contains(t));
                let m = a.index_of(t);
                assert(p[m] == t);
            }
        }
        assert(ascending(p)) by {
            assert forall|m: int, n: int| 0 <= m < n < p.len() implies text_less(
                #[trigger] p[m],
                #[trigger] p[n],
            ) by {
                assert(text_less(a[m], a[n]));
            }
        }
        assert(ascending(q)) by {
            assert forall|m: int, n: int| 0 <= m < n < q.len() implies text_less(
                #[trigger] q[m],
                #[trigger] q[n],
            ) by {
                assert(text_less(b[m], b[n]));
            }
        }
        lemma_ascending_unique(p, q);
        assert(a =~= p.push(x));
        assert(b =~= q.push(y));
    }
}

/// The keys of an action are listed in one way only, so the reference reads the
/// same on every run.
pub proof fn keys_are_listed_one_way(
    a: Seq<Seq<char>>,
    b: Seq<Seq<char>>,
    map: Map<Chord, Action>,
    action: Action,
)
    requires
        lists_keys(a, map, action),
        lists_keys(b, map, action),
    ensures
        a == b,
{
    assert forall|t: Seq<char>| #[trigger] a.contains(t) <==> b.contains(t) by {
        if a.contains(t) {
            assert(is_spelling(a[a.index_of(t)]));
            let chord = choose|chord: Chord| spelled(chord) == t;
            assert(a.contains(spelled(chord)));
            assert(b.contains(spelled(chord)));
        }
        if b.contains(t) {
            assert(is_spelling(b[b.index_of(t)]));
            let chord = choose|chord: Chord| spelled(chord) == t;
            assert(b.contains(spelled(chord)));
            assert(a.contains(spelled(chord)));
        }
    }
    lemma_ascending_unique(a, b);
}

/// A `[keys]` entry moves its own key and leaves every other key alone.
pub proof fn entries_move_one_key(
    map: Map<Chord, Action>,
    key: Seq<char>,
    binding: KeyBinding,
    other: Chord,
)
    requires
        entry_applied(map, key, binding) is Ok,
        chord_in(key) != Ok::<Chord, Seq<char>>(other),
    ensures
        entry_applied(map, key, binding)->Ok_0.contains_key(other) == map.contains_key(other),
        map.contains_key(other) ==> entry_applied(map, key, binding)->Ok_0[other] == map[other],
{
}

impl View for Bindings {
    type V = Map<Chord, Action>;

    closed spec fn view(&self) -> Map<Chord, Action> {
        table(self.entries@)
    }
}

impl Default for Bindings {
    /// The keys strays has always used.
    ///
    /// This is the whole of the viewer's key map: with no config file, this is
    /// what the event loop matches against, so a reader who has never heard of
    /// `config.toml` cannot tell it exists.
    fn default() -> (r: Self)
        ensures
            r@ == table(default_entries()),
    {
        let entries = vec![
            (Chord::plain(Key::Char('q')), Action::Quit),
            (Chord::ctrl(Key::Char('c')), Action::Quit),
            (Chord::plain(Key::Char('?')), Action::Help),
            (Chord::plain(Key::Char('h')), Action::Help),
            (Chord::plain(Key::Char('r')), Action::Refresh),
            (Chord::plain(Key::Char('j')), Action::SelectNext),
            (Chord::plain(Key::Down), Action::SelectNext),
            (Chord::plain(Key::Char('k')), Action::SelectPrevious),
            (Chord::plain(Key::Up), Action::SelectPrevious),
            (Chord::plain(Key::Enter), Action::ToggleCollapsed),
            (Chord::plain(Key::Char(' ')), Action::ToggleCollapsed),
            (Chord::plain(Key::Char('J')), Action::ScrollDiffDown),
            (Chord::plain(Key::Char('K')), Action::ScrollDiffUp),
            (Chord::plain(Key::Char('f')), Action::PageDiffDown),
            (Chord::plain(Key::PageDown), Action::PageDiffDown),
            (Chord::plain(Key::Char('b')), Action::PageDiffUp),
            (Chord::plain(Key::PageUp), Action::PageDiffUp),
            (Chord::plain(Key::Char('g')), Action::ScrollDiffHome),
            (Chord::plain(Key::Home), Action::ScrollDiffHome),
            (Chord::plain(Key::Char('G')), Action::ScrollDiffEnd),
            (Chord::plain(Key::End), Action::ScrollDiffEnd),
            (Chord::plain(Key::Char('m')), Action::ToggleBase),
            (Chord::plain(Key::Char('a')), Action::ToggleShowAll),
            (Chord::plain(Key::Char('w')), Action::ToggleScope),
            (Chord::plain(Key::Char('V')), Action::ToggleSplitDiff),
            (Chord::plain(Key::Char('B')), Action::ToggleBlame),
            (Chord::plain(Key::Char('H')), Action::ToggleHistory),
            (Chord::plain(Key::Char('S')), Action::ToggleStashes),
            (Chord::plain(Key::Char('W')), Action::ToggleBranches),
            (Chord::plain(Key::Char('L')), Action::ToggleGraph),
            (Chord::plain(Key::Char('/')), Action::BeginFilter),
            (Chord::plain(Key::Char('s')), Action::BeginSearch),
            (Chord::plain(Key::Char('n')), Action::SearchNext),
            (Chord::plain(Key::Char('N')), Action::SearchPrevious),
            (Chord::plain(Key::Tab), Action::CursorDown),
            (Chord::plain(Key::BackTab), Action::CursorUp),
            (Chord::plain(Key::Char('A')), Action::BeginAnnotation),
            (Chord::plain(Key::Char('D')), Action::RemoveAnnotation),
            (Chord::plain(Key::Char('R')), Action::SendReview),
            (Chord::plain(Key::Char('e')), Action::OpenEditor),
            (Chord::plain(Key::Char('c')), Action::BeginPrompt),
            (Chord::plain(Key::Char('Y')), Action::GitMenu),
        ];
        assert(entries@ =~= default_entries());
        Bindings { entries }
    }
}

/// What a table says of a chord: the last entry for it.
proof fn lemma_table(entries: Seq<(Chord, Action)>, i: int)
    requires
        0 <= i < entries.len(),
        forall|j: int| i < j < entries.len() ==> entries[j].0 != entries[i].0,
    ensures
        table(entries).contains_key(entries[i].0),
        table(entries)[entries[i].0] == entries[i].1,
    decreases entries.len(),
{
    if i < entries.len() - 1 {
        assert(entries[entries.len() - 1].0 != entries[i].0);
        lemma_table(entries.drop_last(), i);
    }
}

/// A chord that no entry holds is not in the table.
proof fn lemma_table_absent(entries: Seq<(Chord, Action)>, chord: Chord)
    requires
        forall|j: int| 0 <= j < entries.len() ==> (#[trigger] entries[j]).0 != chord,
    ensures
        !table(entries).contains_key(chord),
    decreases entries.len(),
{
    if entries.len() > 0 {
        assert(entries[entries.len() - 1].0 != chord);
        lemma_table_absent(entries.drop_last(), chord);
    }
}

/// A chord in the table has an entry.
proof fn lemma_table_present(entries: Seq<(Chord, Action)>, chord: Chord)
    requires
        table(entries).contains_key(chord),
    ensures
        exists|j: int| 0 <= j < entries.len() && (#[trigger] entries[j]).0 == chord,
{
    if forall|j: int| 0 <= j < entries.len() ==> (#[trigger] entries[j]).0 != chord {
        lemma_table_absent(entries, chord);
    }
}

/// Put a text where it belongs among others in ascending order.
fn insert_text(keys: &mut Vec<String>, key: String)
    requires
        ascending(texts(old(keys)@)),
    ensures
        ascending(texts(final(keys)@)),
        forall|t: Seq<char>| #[trigger]
            texts(final(keys)@).contains(t) <==> texts(old(keys)@).contains(t) || t == key@,
{
    let wanted = chars_of(key.as_str());
    let mut at: usize = 0;
    while at < keys.len() && text_before(&chars_of(keys[at].as_str()), &wanted)
        invariant
            at <= keys@.len(),
            wanted@ == key@,
            *keys == *old(keys),
            forall|j: int| 0 <= j < at ==> text_less(#[trigger] texts(keys@)[j], key@),
        decreases keys@.len() - at,
    {
        assert(texts(keys@)[at as int] == keys@[at as int]@);
        at += 1;
    }
    let ghost before = texts(keys@);
    if at < keys.len() && same(keys[at].as_str(), key.as_str()) {
        assert(before[at as int] == key@);
        return;
    }
    proof {
        if at < keys@.len() {
            assert(before[at as int] == keys@[at as int]@);
            lemma_text_order(before[at as int], key@);
        }
        assert forall|j: int| at <= j < before.len() implies text_less(
            key@,
            #[trigger] before[j],
        ) by {
            if at < j {
                assert(text_less(before[at as int], before[j]));
                lemma_text_transitive(key@, before[at as int], before[j]);
            }
        }
    }
    let ghost word = key@;
    keys.insert(at, key);
    proof {
        let after = texts(keys@);
        assert(after =~= before.insert(at as int, word));
        assert forall|i: int, j: int| 0 <= i < j < after.len() implies text_less(
            #[trigger] after[i],
            #[trigger] after[j],
        ) by {
            let x = if i < at { i } else { i - 1 };
            let y = if j < at { j } else { j - 1 };
            if i != at {
                assert(after[i] == before[x]);
            }
            if j != at {
                assert(after[j] == before[y]);
            }
        }
        assert forall|t: Seq<char>| #[trigger]
            after.contains(t) <==> before.contains(t) || t == word by {
            if before.contains(t) {
                let j = before.index_of(t);
                assert(after[if j < at { j } else { j + 1 }] == t);
            }
            assert(after[at as int] == word);
            if after.contains(t) && t != word {
                let j = after.index_of(t);
                assert(before[if j < at { j } else { j - 1 }] == t);
            }
        }
    }
}

impl Bindings {
    /// What is bound to a chord, if anything.
    fn bound(&self, chord: Chord) -> (r: Option<Action>)
        ensures
            r == (if self@.contains_key(chord) {
                Some(self@[chord])
            } else {
                None
            }),
    {
        let mut i: usize = self.entries.len();
        while i > 0
            invariant
                i <= self.entries@.len(),
                forall|j: int| i <= j < self.entries@.len() ==> (#[trigger] self.entries@[j]).0 != chord,
            decreases i,
        {
            i -= 1;
            if self.entries[i].0 == chord {
                proof {
                    lemma_table(self.entries@, i as int);
                }
                return Some(self.entries[i].1);
            }
        }
        proof {
            lemma_table_absent(self.entries@, chord);
        }
        None
    }

    /// What this keypress means, if anything.
    pub fn action(&self, code: Key, modifiers: Modifiers) -> (r: Option<Action>)
        ensures
            r == ({
                let chord = Chord { code, control: modifiers.control };
                if self@.contains_key(chord) {
                    Some(self@[chord])
                } else {
                    None
                }
            }),
    {
        self.bound(Chord::of(code, modifiers))
    }

    /// The keys bound to an action, for the help screen.
    ///
    /// Sorted by spelling so the reference reads the same on every run.
    pub fn keys_for(&self, action: Action) -> (r: Vec<String>)
        ensures
            lists_keys(texts(r@), self@, action),
    {
        let mut keys: Vec<String> = Vec::new();
        assert(texts(keys@) =~= Seq::<Seq<char>>::empty());
        for i in 0..self.entries.len()
            invariant
                ascending(texts(keys@)),
                forall|chord: Chord|
                    texts(keys@).contains(#[trigger] spelled(chord)) <==> self@.contains_key(chord)
                        && self@[chord] == action && exists|j: int|
                        0 <= j < i && (#[trigger] self.entries@[j]).0 == chord,
                forall|j: int| 0 <= j < keys@.len() ==> is_spelling(#[trigger] texts(keys@)[j]),
        {
            let chord = self.entries[i].0;
            let ghost before = texts(keys@);
            match self.bound(chord) {
                Some(a) => if a == action {
                    let key = spell(chord);
                    insert_text(&mut keys, key);
                    proof {
                        assert forall|c: Chord|
                            texts(keys@).contains(#[trigger] spelled(c)) <==> self@.contains_key(c)
                                && self@[c] == action && exists|j: int|
                                0 <= j < i + 1 && (#[trigger] self.entries@[j]).0 == c by {
                            if spelled(c) == spelled(chord) {
                                spellings_are_distinct(c, chord);
                                assert(self.entries@[i as int].0 == c);
                            }
                        }
                        assert forall|j: int| 0 <= j < keys@.len() implies is_spelling(
                            #[trigger] texts(keys@)[j],
                        ) by {
                            let t = texts(keys@)[j];
                            assert(texts(keys@).contains(t));
                            if before.contains(t) {
                                assert(is_spelling(before[before.index_of(t)]));
                            } else {
                                assert(t == spelled(chord));
                            }
                        }
                    }
                },
                None => {},
            }
        }
        proof {
            assert forall|chord: Chord|
                texts(keys@).contains(#[trigger] spelled(chord)) <==> self@.contains_key(chord)
                    && self@[chord] == action by {
                if self@.contains_key(chord) {
                    lemma_table_present(self.entries@, chord);
                }
            }
        }
        keys
    }

    /// The keys bound to an action, spelled for a reader rather than for a
    /// config file, and joined the way the help screen shows them.
    ///
    /// Empty when nothing is bound — a reader may unbind an action, and the
    /// help screen has to be able to say so rather than print a blank column
    /// that looks like a missing key.
    pub fn shown_for(&self, action: Action) -> (r: String)
        ensures
            exists|keys: Seq<Seq<char>>|
                lists_keys(keys, self@, action) && r@ == join_with(
                    keys.map_values(|k: Seq<char>| symbol_of(k)),
                    " / "@,
                ),
    {
        let keys = self.keys_for(action);
        let mut shown: Vec<String> = Vec::new();
        for i in 0..keys.len()
            invariant
                shown@.len() == i,
                forall|j: int| 0 <= j < i ==> (#[trigger] shown@[j])@ == symbol_of(keys@[j]@),
        {
            shown.push(symbol_for(keys[i].as_str()));
        }
        assert(texts(shown@) =~= texts(keys@).map_values(|k: Seq<char>| symbol_of(k)));
        join(&shown, " / ")
    }

    /// Apply one `[keys]` entry, replacing whatever held that chord.
    ///
    /// Replacing rather than adding is what makes a config file able to *move*
    /// a key: binding `d` to `page-diff-down` leaves `f` alone, but binding `j`
    /// to something else takes it away from `select-next`, which is what a
    /// reader writing that line meant.
    fn bind(&mut self, chord: Chord, action: Action)
        ensures
            final(self)@ == old(self)@.insert(chord, action),
    {
        self.unbind(chord);
        let ghost rest = self.entries@;
        self.entries.push((chord, action));
        assert(self.entries@.drop_last() =~= rest);
        assert(self@ =~= old(self)@.insert(chord, action));
    }

    /// Drop a chord entirely, so the key does nothing.
    fn unbind(&mut self, chord: Chord)
        ensures
            final(self)@ == old(self)@.remove(chord),
    {
        let mut kept: Vec<(Chord, Action)> = Vec::new();
        assert(table(kept@) =~= table(self.entries@.take(0)).remove(chord));
        for i in 0..self.entries.len()
            invariant
                *self == *old(self),
                table(kept@) == table(self.entries@.take(i as int)).remove(chord),
        {
            let ghost before = kept@;
            assert(self.entries@.take(i + 1).drop_last() =~= self.entries@.take(i as int));
            if self.entries[i].0 != chord {
                kept.push(self.entries[i]);
                assert(kept@.drop_last() =~= before);
            }
            assert(table(kept@) =~= table(self.entries@.take(i + 1)).remove(chord));
        }
        assert(self.entries@.take(self.entries@.len() as int) =~= self.entries@);
        self.entries = kept;
    }

    /// Read a `[keys]` table over the defaults.
    ///
    /// Each entry is `key = "action"`, or `key = false` to unbind. Errors name
    /// the offending entry rather than the file, since a config with one bad
    /// entry is otherwise silently three-quarters applied.
    pub fn apply(&mut self, entries: &Vec<(String, KeyBinding)>) -> (r: Result<(), String>)
        ensures
            (final(self)@, outcome(r)) == entries_applied(old(self)@, entries@),
    {
        assert(entries@.skip(0) =~= entries@);
        for i in 0..entries.len()
            invariant
                entries_applied(old(self)@, entries@) == entries_applied(
                    self@,
                    entries@.skip(i as int),
                ),
        {
            assert(entries@.skip(i as int).skip(1) =~= entries@.skip(i + 1));
            let key = &entries[i].0;
            let chord = match Chord::parse(key.as_str()) {
                Ok(chord) => chord,
                Err(e) => {
                    return Err(e);
                },
            };
            match &entries[i].1 {
                KeyBinding::Unbound => self.unbind(chord),
                KeyBinding::Named(name) => {
                    match Action::parse(name.as_str()) {
                        Some(action) => self.bind(chord, action),
                        None => {
                            return Err(
                                "unknown action ".to_owned().concat(
                                    quote(name.as_str()).as_str(),
                                ).concat(" bound to ").concat(quote(key.as_str()).as_str()),
                            );
                        },
                    }
                },
            }
        }
        Ok(())
    }
}

impl Clone for Bindings {
    fn clone(&self) -> (r: Self)
        ensures
            r@ == self@,
    {
        let mut entries: Vec<(Chord, Action)> = Vec::new();
        for i in 0..self.entries.len()
            invariant
                entries@ == self.entries@.take(i as int),
        {
            entries.push(self.entries[i]);
            assert(entries@ =~= self.entries@.take(i + 1));
        }
        assert(self.entries@.take(self.entries@.len() as int) =~= self.entries@);
        Bindings { entries }
    }
}

} // verus!
