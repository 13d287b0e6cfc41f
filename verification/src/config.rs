//! What the reader can set, and where it is read from.
//!
//! # Where
//!
//! `$XDG_CONFIG_HOME/herdr-strays/config.toml`, falling back to
//! `~/.config/herdr-strays/config.toml`. Config rather than state, and so a
//! different directory from the annotations in [`crate::annotate`]: this is a
//! file a reader writes and would expect to keep in their dotfiles, while notes
//! are working memory the viewer writes for itself.
//!
//! # Absent is not empty
//!
//! No config file is the ordinary case, and it must be indistinguishable from
//! one that sets nothing: a reader who has never heard of this file must not be
//! able to tell it exists.
//!
//! # Broken is not silent
//!
//! An unreadable file is reported and the defaults are used, rather than
//! refusing to start: the viewer is still useful with default keys, and a
//! panel that will not open is a worse answer to a misplaced comma than a
//! panel that says so. That is the opposite of what `--json` does with a bad
//! argument, and deliberately: a script needs to be told, a reader needs their
//! screen.

use vstd::prelude::*;
use vstd::string::*;

use crate::paths::{join_paths, joined};
use crate::text::{
    contains, decimal, decimal_i64, decimal_int, decimal_of, glue, has_text, same, text_view,
};

pub use crate::config::keys::{Action, Bindings, KeyBinding};
use crate::config::keys::{
    default_entries, entries_applied, outcome, quote, quoted, table, Chord,
};

pub mod keys;
pub mod setting;

verus! {

/// A directory holding at least this many strays starts folded.
pub const DEFAULT_AUTO_FOLD_THRESHOLD: usize = 25;

/// Below this width the panes stack vertically instead of sitting side by side.
pub const DEFAULT_SIDE_BY_SIDE_MIN_WIDTH: u16 = 80;

/// How long the event loop blocks on input before re-checking the watcher.
pub const DEFAULT_TICK_MS: u64 = 250;

/// How long the watch waits for a burst of filesystem events to settle.
pub const DEFAULT_DEBOUNCE_MS: u64 = 400;

/// How many commits the history and graph panes read.
pub const DEFAULT_MAX_COMMITS: usize = 200;

/// How long an answer from the forge stands before it is asked for again.
///
/// Minutes, not seconds. A CI run takes longer than this to change state, and
/// the GitHub API is rate-limited per hour — a plugin that burned that budget
/// redrawing an unchanged tick would be a bad neighbour to every other tool the
/// reader has authenticated.
pub const DEFAULT_FORGE_INTERVAL_SECS: u64 = 120;

/// Everything the reader can set.
///
/// Held as one value and passed down rather than read where it is needed: a
/// config read from disk in the middle of drawing would be a hidden global.
#[derive(Debug, PartialEq, Eq)]
pub struct Config {
    pub thresholds: Thresholds,
    pub panels: Panels,
    pub bindings: Bindings,
    pub forge: Forge,
}

/// What a config says, with the bindings as a table.
pub ghost struct ConfigView {
    pub thresholds: Thresholds,
    pub panels: Panels,
    pub bindings: Map<Chord, Action>,
    pub forge: Forge,
}

impl View for Config {
    type V = ConfigView;

    open spec fn view(&self) -> ConfigView {
        ConfigView {
            thresholds: self.thresholds,
            panels: self.panels,
            bindings: self.bindings@,
            forge: self.forge,
        }
    }
}

/// What is in force where nothing is set.
pub open spec fn default_config() -> ConfigView {
    ConfigView {
        thresholds: default_thresholds(),
        panels: default_panels(),
        bindings: table(default_entries()),
        forge: default_forge(),
    }
}

impl Default for Config {
    fn default() -> (r: Self)
        ensures
            r@ == default_config(),
    {
        Config {
            thresholds: Thresholds::default(),
            panels: Panels::default(),
            bindings: Bindings::default(),
            forge: Forge::default(),
        }
    }
}

impl Clone for Config {
    fn clone(&self) -> (r: Self)
        ensures
            r@ == self@,
    {
        Config {
            thresholds: self.thresholds,
            panels: self.panels,
            bindings: self.bindings.clone(),
            forge: self.forge,
        }
    }
}

/// Whether and how often the hosting forge is asked about the repositories.
///
/// Its own section rather than a field in [`Panels`]: this decides whether a
/// subprocess runs and a network call is made, which is a different kind of
/// question from how the panes are laid out.
#[derive(Debug, Clone, Copy, PartialEq, Eq, Structural)]
pub struct Forge {
    /// Whether to ask at all.
    ///
    /// On by default, because the ask degrades to nothing on a machine with no
    /// `gh`, an unauthenticated one, or a repository on another forge — the
    /// reader who cannot use it sees exactly what they would see without it.
    /// Off is for someone who *can* use it and would rather not: a metered
    /// connection, or a rate limit they are spending elsewhere.
    pub enabled: bool,
    /// Seconds between rounds.
    pub interval_secs: u64,
}

/// The forge of a reader who has set nothing about it.
pub open spec fn default_forge() -> Forge {
    Forge { enabled: true, interval_secs: DEFAULT_FORGE_INTERVAL_SECS }
}

impl Default for Forge {
    fn default() -> (r: Self)
        ensures
            r == default_forge(),
    {
        Forge { enabled: true, interval_secs: DEFAULT_FORGE_INTERVAL_SECS }
    }
}

/// The numbers that can be set.
#[derive(Debug, Clone, Copy, PartialEq, Eq, Structural)]
pub struct Thresholds {
    pub auto_fold: usize,
    pub side_by_side_min_width: u16,
    pub tick_ms: u64,
    pub debounce_ms: u64,
    pub max_commits: usize,
}

/// The numbers of a reader who has set none.
pub open spec fn default_thresholds() -> Thresholds {
    Thresholds {
        auto_fold: DEFAULT_AUTO_FOLD_THRESHOLD,
        side_by_side_min_width: DEFAULT_SIDE_BY_SIDE_MIN_WIDTH,
        tick_ms: DEFAULT_TICK_MS,
        debounce_ms: DEFAULT_DEBOUNCE_MS,
        max_commits: DEFAULT_MAX_COMMITS,
    }
}

impl Default for Thresholds {
    fn default() -> (r: Self)
        ensures
            r == default_thresholds(),
    {
        Thresholds {
            auto_fold: DEFAULT_AUTO_FOLD_THRESHOLD,
            side_by_side_min_width: DEFAULT_SIDE_BY_SIDE_MIN_WIDTH,
            tick_ms: DEFAULT_TICK_MS,
            debounce_ms: DEFAULT_DEBOUNCE_MS,
            max_commits: DEFAULT_MAX_COMMITS,
        }
    }
}

/// What the viewer shows without being asked.
#[derive(Debug, Clone, Copy, PartialEq, Eq, Structural)]
pub struct Panels {
    /// List every tracked file rather than only the ones that strayed.
    pub show_all: bool,
    /// Start with the key reference open.
    pub show_help: bool,
    /// Lay the diff beside the list rather than below it, when there is room.
    pub side_by_side: bool,
}

/// The panels of a reader who has set nothing about them.
pub open spec fn default_panels() -> Panels {
    Panels { show_all: false, show_help: false, side_by_side: true }
}

impl Default for Panels {
    fn default() -> (r: Self)
        ensures
            r == default_panels(),
    {
        Panels { show_all: false, show_help: false, side_by_side: true }
    }
}

/// Why a config file could not be used.
///
/// Carries the path because the fallback directory means a reader may not know
/// which of two files the viewer read.
#[derive(Debug, PartialEq, Eq)]
pub enum ConfigError {
    /// The file is there and could not be read, and what the system said.
    Io { path: String, error: String },
    Parse { path: String, message: String },
}

impl ConfigError {
    /// The error in words.
    pub open spec fn text(&self) -> Seq<char> {
        match self {
            ConfigError::Io { path, error } => "could not read "@ + path@ + ": "@ + error@,
            ConfigError::Parse { path, message } => path@ + ": "@ + message@,
        }
    }

    /// The error in words.
    pub fn message(&self) -> (r: String)
        ensures
            r@ == self.text(),
    {
        match self {
            ConfigError::Io { path, error } => "could not read ".to_owned().concat(
                path.as_str(),
            ).concat(": ").concat(error.as_str()),
            ConfigError::Parse { path, message } => path.as_str().to_owned().concat(": ").concat(
                message.as_str(),
            ),
        }
    }
}

/// The directory the config file lives in.
pub open spec fn config_home(xdg: Option<Seq<char>>, home: Option<Seq<char>>) -> Option<Seq<char>> {
    match xdg {
        Some(dir) if dir.len() > 0 => Some(joined(dir, "herdr-strays"@)),
        _ => match home {
            Some(dir) => Some(joined(dir, ".config/herdr-strays"@)),
            None => None,
        },
    }
}

/// The directory the config file lives in, given `$XDG_CONFIG_HOME` and the
/// reader's home directory.
fn config_dir(xdg: &Option<String>, home: &Option<String>) -> (r: Option<String>)
    ensures
        text_view(r) == config_home(text_view(*xdg), text_view(*home)),
{
    if let Some(dir) = xdg {
        if !dir.is_empty() {
            return Some(join_paths(dir.as_str(), "herdr-strays"));
        }
    }
    match home {
        Some(dir) => Some(join_paths(dir.as_str(), ".config/herdr-strays")),
        None => None,
    }
}

/// The config file, wherever it would be, given `$XDG_CONFIG_HOME` and the
/// reader's home directory.
pub fn config_path(xdg: &Option<String>, home: &Option<String>) -> (r: Option<String>)
    ensures
        text_view(r) == match config_home(text_view(*xdg), text_view(*home)) {
            Some(dir) => Some(joined(dir, "config.toml"@)),
            None => None,
        },
{
    match config_dir(xdg, home) {
        Some(dir) => Some(join_paths(dir.as_str(), "config.toml")),
        None => None,
    }
}

/// A value of a config file.
#[derive(Debug, PartialEq, Eq)]
pub enum Setting {
    Text(String),
    Whole(i64),
    Switch(bool),
    /// The entries of a table, by their keys, as they were written. A date is a
    /// table with one entry.
    Table(Vec<(String, Setting)>),
    /// A number that is no whole one, as it is written. Nothing takes one.
    Fraction(String),
    /// A list. In place of a table of known entries it gives them by their
    /// places; nothing else takes one.
    List(Vec<Setting>),
}

/// `toml::Value`.
#[verifier::external_type_specification]
#[verifier::external_body]
pub struct ExToml(toml::Value);

/// `toml::de::Error`.
#[verifier::external_type_specification]
#[verifier::external_body]
pub struct ExTomlError(toml::de::Error);

/// What `toml::from_str` makes of a text.
pub uninterp spec fn parsed_toml(text: Seq<char>) -> Result<toml::Value, toml::de::Error>;

/// `toml::from_str`: the value that a TOML document writes down, or an error
/// where the text is none. Which value it is is left unsaid; it depends on the
/// text alone.
#[verifier::external_body]
fn parse_toml(text: &str) -> (r: Result<toml::Value, toml::de::Error>)
    ensures
        r == parsed_toml(text@),
{
    toml::from_str(text)
}

/// What a `toml::de::Error` says went wrong.
pub uninterp spec fn complaint_of(error: toml::de::Error) -> Seq<char>;

/// `toml::de::Error::message`: what went wrong, without the place in the text.
/// The words are left unsaid; they depend on the error alone.
#[verifier::external_body]
fn complaint(error: toml::de::Error) -> (r: String)
    ensures
        r@ == complaint_of(error),
{
    error.message().to_owned()
}

/// What a `toml::Value` holds, as plain values.
pub uninterp spec fn plain_setting(value: toml::Value) -> Setting;

/// The variants of `toml::Value`, each with what it holds: tables and lists item
/// by item, in their order, a number with a fraction as `Display` writes it, and a date as
/// the table of one entry that `toml` hands out for one.
#[verifier::external_body]
fn converted(value: toml::Value) -> (r: Setting)
    ensures
        r == plain_setting(value),
{
    match value {
        toml::Value::String(s) => Setting::Text(s),
        toml::Value::Integer(n) => Setting::Whole(n),
        toml::Value::Boolean(b) => Setting::Switch(b),
        toml::Value::Table(entries) => Setting::Table(
            entries.into_iter().map(|(key, item)| (key, converted(item))).collect(),
        ),
        toml::Value::Float(x) => Setting::Fraction(x.to_string()),
        toml::Value::Datetime(date) => Setting::Table(
            vec![("$__toml_private_datetime".to_owned(), Setting::Text(date.to_string()))],
        ),
        toml::Value::Array(items) => Setting::List(items.into_iter().map(converted).collect()),
    }
}

/// The file as it is written on disk.
///
/// Separate from [`Config`] because the two answer different questions: this
/// one is "what did the reader write", where every field is optional, and
/// `Config` is "what is in force", where none of them are. Keeping them apart
/// is what lets an absent key mean the default rather than zero.
#[derive(Debug, PartialEq, Eq)]
pub struct File {
    pub thresholds: ThresholdsFile,
    pub panels: PanelsFile,
    pub forge: ForgeFile,
    /// In the order they were written, so that an error names the first of them.
    pub keys: Vec<(String, KeyValue)>,
}

/// What a file says.
pub ghost struct FileView {
    pub thresholds: ThresholdsFile,
    pub panels: PanelsFile,
    pub forge: ForgeFile,
    pub keys: Seq<(String, KeyValue)>,
}

impl View for File {
    type V = FileView;

    open spec fn view(&self) -> FileView {
        FileView {
            thresholds: self.thresholds,
            panels: self.panels,
            forge: self.forge,
            keys: self.keys@,
        }
    }
}

#[derive(Debug, Clone, Copy, PartialEq, Eq, Structural)]
pub struct ThresholdsFile {
    pub auto_fold: Option<usize>,
    pub side_by_side_min_width: Option<u16>,
    pub tick_ms: Option<u64>,
    pub debounce_ms: Option<u64>,
    pub max_commits: Option<usize>,
}

#[derive(Debug, Clone, Copy, PartialEq, Eq, Structural)]
pub struct PanelsFile {
    pub show_all: Option<bool>,
    pub show_help: Option<bool>,
    pub side_by_side: Option<bool>,
}

#[derive(Debug, Clone, Copy, PartialEq, Eq, Structural)]
pub struct ForgeFile {
    pub enabled: Option<bool>,
    pub interval_secs: Option<u64>,
}

/// A `[keys]` value: an action name, or `false` to unbind the key.
#[derive(Debug, PartialEq, Eq)]
pub enum KeyValue {
    Name(String),
    /// Only `false` is meaningful; `true` would be asking for the key to be
    /// bound to nothing in particular, which is refused in [`resolve`].
    Off(bool),
}

/// A file that says nothing.
pub open spec fn empty_file() -> FileView {
    FileView {
        thresholds: empty_thresholds(),
        panels: empty_panels(),
        forge: empty_forge(),
        keys: Seq::empty(),
    }
}

/// A `[thresholds]` table that says nothing.
pub open spec fn empty_thresholds() -> ThresholdsFile {
    ThresholdsFile {
        auto_fold: None,
        side_by_side_min_width: None,
        tick_ms: None,
        debounce_ms: None,
        max_commits: None,
    }
}

/// A `[panels]` table that says nothing.
pub open spec fn empty_panels() -> PanelsFile {
    PanelsFile { show_all: None, show_help: None, side_by_side: None }
}

/// A `[forge]` table that says nothing.
pub open spec fn empty_forge() -> ForgeFile {
    ForgeFile { enabled: None, interval_secs: None }
}

/// What is said of a key that nothing goes by.
pub open spec fn unknown_field(key: Seq<char>, known: Seq<char>) -> Seq<char> {
    "unknown field `"@ + key + "`, expected "@ + known
}

/// A number that is no whole one, with a decimal point in it if it has digits.
pub open spec fn pointed(number: Seq<char>) -> Seq<char> {
    if has_text(number, "."@) || number == "inf"@ || number == "-inf"@ || number == "NaN"@ {
        number
    } else {
        number + ".0"@
    }
}

/// What a setting is called where it is not wanted.
pub open spec fn called(value: Setting) -> Seq<char> {
    match value {
        Setting::Text(s) => "string "@ + quoted(s@),
        Setting::Whole(n) => "integer `"@ + decimal_int(n as int) + "`"@,
        Setting::Switch(b) => if b {
            "boolean `true`"@
        } else {
            "boolean `false`"@
        },
        Setting::Table(_) => "map"@,
        Setting::Fraction(number) => "floating point `"@ + pointed(number@) + "`"@,
        Setting::List(_) => "sequence"@,
    }
}

/// What is said of a setting of the wrong sort.
pub open spec fn invalid_type(value: Setting, wanted: Seq<char>) -> Seq<char> {
    "invalid type: "@ + called(value) + ", expected "@ + wanted
}

/// What is said of a setting that is not the number it should be: it is out of
/// range, or no whole number at all.
pub open spec fn invalid_number(value: Setting, wanted: Seq<char>) -> Seq<char> {
    match value {
        Setting::Whole(_) => "invalid value: "@ + called(value) + ", expected "@ + wanted,
        _ => invalid_type(value, wanted),
    }
}

/// What is said of a key that is bound to neither an action nor nothing.
pub open spec fn no_binding() -> Seq<char> {
    "data did not match any variant of untagged enum KeyValue"@
}

fn say_unknown(key: &str, known: &str) -> (r: String)
    ensures
        r@ == unknown_field(key@, known@),
{
    "unknown field `".to_owned().concat(key).concat("`, expected ").concat(known)
}

fn call_setting(value: &Setting) -> (r: String)
    ensures
        r@ == called(*value),
{
    match value {
        Setting::Text(s) => "string ".to_owned().concat(quote(s.as_str()).as_str()),
        Setting::Whole(n) => glue("integer `", decimal_i64(*n).as_str(), "`"),
        Setting::Switch(b) => if *b {
            "boolean `true`".to_owned()
        } else {
            "boolean `false`".to_owned()
        },
        Setting::Table(_) => "map".to_owned(),
        Setting::Fraction(number) => {
            let n = number.as_str();
            if contains(n, ".") || same(n, "inf") || same(n, "-inf") || same(n, "NaN") {
                glue("floating point `", n, "`")
            } else {
                glue("floating point `", number.clone().concat(".0").as_str(), "`")
            }
        },
        Setting::List(_) => "sequence".to_owned(),
    }
}

fn say_invalid(value: &Setting, wanted: &str) -> (r: String)
    ensures
        r@ == invalid_type(*value, wanted@),
{
    glue("invalid type: ", call_setting(value).as_str(), ", expected ").concat(wanted)
}

fn say_bad_number(value: &Setting, wanted: &str) -> (r: String)
    ensures
        r@ == invalid_number(*value, wanted@),
{
    match value {
        Setting::Whole(_) => {
            let said = glue("invalid value: ", call_setting(value).as_str(), ", expected ");
            said.concat(wanted)
        },
        _ => say_invalid(value, wanted),
    }
}

/// The whole number that a setting is, where it is one from 0 to `max`.
pub open spec fn whole_upto(value: Setting, max: int) -> Option<int> {
    match value {
        Setting::Whole(n) if 0 <= n <= max => Some(n as int),
        _ => None,
    }
}

fn whole(value: &Setting, max: u64) -> (r: Option<u64>)
    ensures
        match (r, whole_upto(*value, max as int)) {
            (Some(n), Some(m)) => n == m,
            (None, None) => true,
            _ => false,
        },
{
    match value {
        Setting::Whole(n) => if *n >= 0 && *n as u64 <= max {
            Some(*n as u64)
        } else {
            None
        },
        _ => None,
    }
}

/// The switch that a setting is, if it is one.
pub open spec fn switch_of(value: Setting) -> Option<bool> {
    match value {
        Setting::Switch(b) => Some(b),
        _ => None,
    }
}

fn switch(value: &Setting) -> (r: Option<bool>)
    ensures
        r == switch_of(*value),
{
    match value {
        Setting::Switch(b) => Some(*b),
        _ => None,
    }
}

/// What comes of taking entries one after another, up to the first that is
/// refused.
pub open spec fn taken<T>(
    start: T,
    entries: Seq<(String, Setting)>,
    take: spec_fn(T, Seq<char>, Setting) -> Result<T, Seq<char>>,
) -> Result<T, Seq<char>>
    decreases entries.len(),
{
    if entries.len() == 0 {
        Ok(start)
    } else {
        match take(start, entries[0].0@, entries[0].1) {
            Ok(next) => taken(next, entries.skip(1), take),
            Err(e) => Err(e),
        }
    }
}

/// What comes of taking a list in place of a table: its items stand for the
/// fields in turn, from the `i`-th on. A list that ends before the last field is
/// refused; what follows it is passed over.
pub open spec fn placed<T>(
    start: T,
    fields: Seq<Seq<char>>,
    items: Seq<Setting>,
    wanted: Seq<char>,
    take: spec_fn(T, Seq<char>, Setting) -> Result<T, Seq<char>>,
    i: int,
) -> Result<T, Seq<char>>
    decreases fields.len() - i,
{
    if i < 0 || i >= fields.len() {
        Ok(start)
    } else if i >= items.len() {
        Err(invalid_length(i as nat, wanted))
    } else {
        match take(start, fields[i], items[i]) {
            Ok(next) => placed(next, fields, items, wanted, take, i + 1),
            Err(e) => Err(e),
        }
    }
}

/// What is said of a list that is too short.
pub open spec fn invalid_length(len: nat, wanted: Seq<char>) -> Seq<char> {
    "invalid length "@ + decimal_of(len) + ", expected "@ + wanted
}

fn say_invalid_length(len: usize, wanted: &str) -> (r: String)
    ensures
        r@ == invalid_length(len as nat, wanted@),
{
    glue("invalid length ", decimal(len as u64).as_str(), ", expected ").concat(wanted)
}

/// The numbers after one entry of `[thresholds]`, or what is wrong with it.
pub open spec fn threshold_taken(
    file: ThresholdsFile,
    key: Seq<char>,
    value: Setting,
) -> Result<ThresholdsFile, Seq<char>> {
    if key == "auto_fold"@ {
        match whole_upto(value, usize::MAX as int) {
            Some(n) => Ok(ThresholdsFile { auto_fold: Some(n as usize), ..file }),
            None => Err(invalid_number(value, "usize"@)),
        }
    } else if key == "side_by_side_min_width"@ {
        match whole_upto(value, u16::MAX as int) {
            Some(n) => Ok(ThresholdsFile { side_by_side_min_width: Some(n as u16), ..file }),
            None => Err(invalid_number(value, "u16"@)),
        }
    } else if key == "tick_ms"@ {
        match whole_upto(value, u64::MAX as int) {
            Some(n) => Ok(ThresholdsFile { tick_ms: Some(n as u64), ..file }),
            None => Err(invalid_number(value, "u64"@)),
        }
    } else if key == "debounce_ms"@ {
        match whole_upto(value, u64::MAX as int) {
            Some(n) => Ok(ThresholdsFile { debounce_ms: Some(n as u64), ..file }),
            None => Err(invalid_number(value, "u64"@)),
        }
    } else if key == "max_commits"@ {
        match whole_upto(value, usize::MAX as int) {
            Some(n) => Ok(ThresholdsFile { max_commits: Some(n as usize), ..file }),
            None => Err(invalid_number(value, "usize"@)),
        }
    } else {
        Err(unknown_field(key, "one of `auto_fold`, `side_by_side_min_width`, `tick_ms`, `debounce_ms`, `max_commits`"@))
    }
}

/// The panels after one entry of `[panels]`, or what is wrong with it.
pub open spec fn panel_taken(
    file: PanelsFile,
    key: Seq<char>,
    value: Setting,
) -> Result<PanelsFile, Seq<char>> {
    if key == "show_all"@ {
        match switch_of(value) {
            Some(b) => Ok(PanelsFile { show_all: Some(b), ..file }),
            None => Err(invalid_type(value, "a boolean"@)),
        }
    } else if key == "show_help"@ {
        match switch_of(value) {
            Some(b) => Ok(PanelsFile { show_help: Some(b), ..file }),
            None => Err(invalid_type(value, "a boolean"@)),
        }
    } else if key == "side_by_side"@ {
        match switch_of(value) {
            Some(b) => Ok(PanelsFile { side_by_side: Some(b), ..file }),
            None => Err(invalid_type(value, "a boolean"@)),
        }
    } else {
        Err(unknown_field(key, "one of `show_all`, `show_help`, `side_by_side`"@))
    }
}

/// The forge after one entry of `[forge]`, or what is wrong with it.
pub open spec fn forge_taken(
    file: ForgeFile,
    key: Seq<char>,
    value: Setting,
) -> Result<ForgeFile, Seq<char>> {
    if key == "enabled"@ {
        match switch_of(value) {
            Some(b) => Ok(ForgeFile { enabled: Some(b), ..file }),
            None => Err(invalid_type(value, "a boolean"@)),
        }
    } else if key == "interval_secs"@ {
        match whole_upto(value, u64::MAX as int) {
            Some(n) => Ok(ForgeFile { interval_secs: Some(n as u64), ..file }),
            None => Err(invalid_number(value, "u64"@)),
        }
    } else {
        Err(unknown_field(key, "`enabled` or `interval_secs`"@))
    }
}

/// Take one entry of a `[thresholds]` table.
fn take_threshold(file: &mut ThresholdsFile, key: &str, value: &Setting) -> (r: Result<(), String>)
    ensures
        match (r, threshold_taken(*old(file), key@, *value)) {
            (Ok(_), Ok(next)) => *final(file) == next,
            (Err(e), Err(said)) => e@ == said,
            _ => false,
        },
{
    if same(key, "auto_fold") {
        match whole(value, usize::MAX as u64) {
            Some(n) => {
                file.auto_fold = Some(n as usize);
            },
            None => {
                return Err(say_bad_number(value, "usize"));
            },
        }
    } else if same(key, "side_by_side_min_width") {
        match whole(value, u16::MAX as u64) {
            Some(n) => {
                file.side_by_side_min_width = Some(n as u16);
            },
            None => {
                return Err(say_bad_number(value, "u16"));
            },
        }
    } else if same(key, "tick_ms") {
        match whole(value, u64::MAX) {
            Some(n) => {
                file.tick_ms = Some(n);
            },
            None => {
                return Err(say_bad_number(value, "u64"));
            },
        }
    } else if same(key, "debounce_ms") {
        match whole(value, u64::MAX) {
            Some(n) => {
                file.debounce_ms = Some(n);
            },
            None => {
                return Err(say_bad_number(value, "u64"));
            },
        }
    } else if same(key, "max_commits") {
        match whole(value, usize::MAX as u64) {
            Some(n) => {
                file.max_commits = Some(n as usize);
            },
            None => {
                return Err(say_bad_number(value, "usize"));
            },
        }
    } else {
        return Err(say_unknown(key, "one of `auto_fold`, `side_by_side_min_width`, `tick_ms`, `debounce_ms`, `max_commits`"));
    }
    Ok(())
}

/// Read a `[thresholds]` table.
fn threshold(entries: &Vec<(String, Setting)>) -> (r: Result<ThresholdsFile, String>)
    ensures
        outcome(r) == taken(
            empty_thresholds(),
            entries@,
            |f: ThresholdsFile, k: Seq<char>, v: Setting| threshold_taken(f, k, v),
        ),
{
    let mut file = ThresholdsFile {
        auto_fold: None,
        side_by_side_min_width: None,
        tick_ms: None,
        debounce_ms: None,
        max_commits: None,
    };
    assert(entries@.skip(0) =~= entries@);
    for i in 0..entries.len()
        invariant
            taken(
                empty_thresholds(),
                entries@,
                |f: ThresholdsFile, k: Seq<char>, v: Setting| threshold_taken(f, k, v),
            ) == taken(
                file,
                entries@.skip(i as int),
                |f: ThresholdsFile, k: Seq<char>, v: Setting| threshold_taken(f, k, v),
            ),
    {
        assert(entries@.skip(i as int).skip(1) =~= entries@.skip(i + 1));
        match take_threshold(&mut file, entries[i].0.as_str(), &entries[i].1) {
            Ok(_) => {},
            Err(e) => {
                return Err(e);
            },
        }
    }
    Ok(file)
}

/// The fields of `[thresholds]`, in their order.
pub open spec fn threshold_fields() -> Seq<Seq<char>> {
    seq!["auto_fold"@, "side_by_side_min_width"@, "tick_ms"@, "debounce_ms"@, "max_commits"@]
}

/// Read a list in place of a `[thresholds]` table.
fn threshold_list(items: &Vec<Setting>) -> (r: Result<ThresholdsFile, String>)
    ensures
        outcome(r) == placed(
            empty_thresholds(),
            threshold_fields(),
            items@,
            "struct ThresholdsFile with 5 elements"@,
            |f: ThresholdsFile, k: Seq<char>, v: Setting| threshold_taken(f, k, v),
            0,
        ),
{
    let mut file = ThresholdsFile {
        auto_fold: None,
        side_by_side_min_width: None,
        tick_ms: None,
        debounce_ms: None,
        max_commits: None,
    };
    let fields: [&str; 5] = ["auto_fold", "side_by_side_min_width", "tick_ms", "debounce_ms", "max_commits"];
    for i in 0..5usize
        invariant
            fields@.len() == 5,
            forall|j: int| 0 <= j < 5 ==> #[trigger] fields@[j]@ == threshold_fields()[j],
            placed(
                empty_thresholds(),
                threshold_fields(),
                items@,
                "struct ThresholdsFile with 5 elements"@,
                |f: ThresholdsFile, k: Seq<char>, v: Setting| threshold_taken(f, k, v),
                0,
            ) == placed(
                file,
                threshold_fields(),
                items@,
                "struct ThresholdsFile with 5 elements"@,
                |f: ThresholdsFile, k: Seq<char>, v: Setting| threshold_taken(f, k, v),
                i as int,
            ),
    {
        if i >= items.len() {
            return Err(say_invalid_length(i, "struct ThresholdsFile with 5 elements"));
        }
        match take_threshold(&mut file, fields[i], &items[i]) {
            Ok(_) => {},
            Err(e) => {
                return Err(e);
            },
        }
    }
    Ok(file)
}

/// Take one entry of a `[panels]` table.
fn take_panel(file: &mut PanelsFile, key: &str, value: &Setting) -> (r: Result<(), String>)
    ensures
        match (r, panel_taken(*old(file), key@, *value)) {
            (Ok(_), Ok(next)) => *final(file) == next,
            (Err(e), Err(said)) => e@ == said,
            _ => false,
        },
{
    if same(key, "show_all") {
        match switch(value) {
            Some(b) => {
                file.show_all = Some(b);
            },
            None => {
                return Err(say_invalid(value, "a boolean"));
            },
        }
    } else if same(key, "show_help") {
        match switch(value) {
            Some(b) => {
                file.show_help = Some(b);
            },
            None => {
                return Err(say_invalid(value, "a boolean"));
            },
        }
    } else if same(key, "side_by_side") {
        match switch(value) {
            Some(b) => {
                file.side_by_side = Some(b);
            },
            None => {
                return Err(say_invalid(value, "a boolean"));
            },
        }
    } else {
        return Err(say_unknown(key, "one of `show_all`, `show_help`, `side_by_side`"));
    }
    Ok(())
}

/// Read a `[panels]` table.
fn panel(entries: &Vec<(String, Setting)>) -> (r: Result<PanelsFile, String>)
    ensures
        outcome(r) == taken(
            empty_panels(),
            entries@,
            |f: PanelsFile, k: Seq<char>, v: Setting| panel_taken(f, k, v),
        ),
{
    let mut file = PanelsFile { show_all: None, show_help: None, side_by_side: None };
    assert(entries@.skip(0) =~= entries@);
    for i in 0..entries.len()
        invariant
            taken(
                empty_panels(),
                entries@,
                |f: PanelsFile, k: Seq<char>, v: Setting| panel_taken(f, k, v),
            ) == taken(
                file,
                entries@.skip(i as int),
                |f: PanelsFile, k: Seq<char>, v: Setting| panel_taken(f, k, v),
            ),
    {
        assert(entries@.skip(i as int).skip(1) =~= entries@.skip(i + 1));
        match take_panel(&mut file, entries[i].0.as_str(), &entries[i].1) {
            Ok(_) => {},
            Err(e) => {
                return Err(e);
            },
        }
    }
    Ok(file)
}

/// The fields of `[panels]`, in their order.
pub open spec fn panel_fields() -> Seq<Seq<char>> {
    seq!["show_all"@, "show_help"@, "side_by_side"@]
}

/// Read a list in place of a `[panels]` table.
fn panel_list(items: &Vec<Setting>) -> (r: Result<PanelsFile, String>)
    ensures
        outcome(r) == placed(
            empty_panels(),
            panel_fields(),
            items@,
            "struct PanelsFile with 3 elements"@,
            |f: PanelsFile, k: Seq<char>, v: Setting| panel_taken(f, k, v),
            0,
        ),
{
    let mut file = PanelsFile { show_all: None, show_help: None, side_by_side: None };
    let fields: [&str; 3] = ["show_all", "show_help", "side_by_side"];
    for i in 0..3usize
        invariant
            fields@.len() == 3,
            forall|j: int| 0 <= j < 3 ==> #[trigger] fields@[j]@ == panel_fields()[j],
            placed(
                empty_panels(),
                panel_fields(),
                items@,
                "struct PanelsFile with 3 elements"@,
                |f: PanelsFile, k: Seq<char>, v: Setting| panel_taken(f, k, v),
                0,
            ) == placed(
                file,
                panel_fields(),
                items@,
                "struct PanelsFile with 3 elements"@,
                |f: PanelsFile, k: Seq<char>, v: Setting| panel_taken(f, k, v),
                i as int,
            ),
    {
        if i >= items.len() {
            return Err(say_invalid_length(i, "struct PanelsFile with 3 elements"));
        }
        match take_panel(&mut file, fields[i], &items[i]) {
            Ok(_) => {},
            Err(e) => {
                return Err(e);
            },
        }
    }
    Ok(file)
}

/// Take one entry of a `[forge]` table.
fn take_forge(file: &mut ForgeFile, key: &str, value: &Setting) -> (r: Result<(), String>)
    ensures
        match (r, forge_taken(*old(file), key@, *value)) {
            (Ok(_), Ok(next)) => *final(file) == next,
            (Err(e), Err(said)) => e@ == said,
            _ => false,
        },
{
    if same(key, "enabled") {
        match switch(value) {
            Some(b) => {
                file.enabled = Some(b);
            },
            None => {
                return Err(say_invalid(value, "a boolean"));
            },
        }
    } else if same(key, "interval_secs") {
        match whole(value, u64::MAX) {
            Some(n) => {
                file.interval_secs = Some(n);
            },
            None => {
                return Err(say_bad_number(value, "u64"));
            },
        }
    } else {
        return Err(say_unknown(key, "`enabled` or `interval_secs`"));
    }
    Ok(())
}

/// Read a `[forge]` table.
fn forge(entries: &Vec<(String, Setting)>) -> (r: Result<ForgeFile, String>)
    ensures
        outcome(r) == taken(
            empty_forge(),
            entries@,
            |f: ForgeFile, k: Seq<char>, v: Setting| forge_taken(f, k, v),
        ),
{
    let mut file = ForgeFile { enabled: None, interval_secs: None };
    assert(entries@.skip(0) =~= entries@);
    for i in 0..entries.len()
        invariant
            taken(
                empty_forge(),
                entries@,
                |f: ForgeFile, k: Seq<char>, v: Setting| forge_taken(f, k, v),
            ) == taken(
                file,
                entries@.skip(i as int),
                |f: ForgeFile, k: Seq<char>, v: Setting| forge_taken(f, k, v),
            ),
    {
        assert(entries@.skip(i as int).skip(1) =~= entries@.skip(i + 1));
        match take_forge(&mut file, entries[i].0.as_str(), &entries[i].1) {
            Ok(_) => {},
            Err(e) => {
                return Err(e);
            },
        }
    }
    Ok(file)
}

/// The fields of `[forge]`, in their order.
pub open spec fn forge_fields() -> Seq<Seq<char>> {
    seq!["enabled"@, "interval_secs"@]
}

/// Read a list in place of a `[forge]` table.
fn forge_list(items: &Vec<Setting>) -> (r: Result<ForgeFile, String>)
    ensures
        outcome(r) == placed(
            empty_forge(),
            forge_fields(),
            items@,
            "struct ForgeFile with 2 elements"@,
            |f: ForgeFile, k: Seq<char>, v: Setting| forge_taken(f, k, v),
            0,
        ),
{
    let mut file = ForgeFile { enabled: None, interval_secs: None };
    let fields: [&str; 2] = ["enabled", "interval_secs"];
    for i in 0..2usize
        invariant
            fields@.len() == 2,
            forall|j: int| 0 <= j < 2 ==> #[trigger] fields@[j]@ == forge_fields()[j],
            placed(
                empty_forge(),
                forge_fields(),
                items@,
                "struct ForgeFile with 2 elements"@,
                |f: ForgeFile, k: Seq<char>, v: Setting| forge_taken(f, k, v),
                0,
            ) == placed(
                file,
                forge_fields(),
                items@,
                "struct ForgeFile with 2 elements"@,
                |f: ForgeFile, k: Seq<char>, v: Setting| forge_taken(f, k, v),
                i as int,
            ),
    {
        if i >= items.len() {
            return Err(say_invalid_length(i, "struct ForgeFile with 2 elements"));
        }
        match take_forge(&mut file, fields[i], &items[i]) {
            Ok(_) => {},
            Err(e) => {
                return Err(e);
            },
        }
    }
    Ok(file)
}

/// What one entry of `[keys]` says, if it says anything.
pub open spec fn key_value(value: Setting) -> Option<KeyValue> {
    match value {
        Setting::Text(name) => Some(KeyValue::Name(name)),
        Setting::Switch(on) => Some(KeyValue::Off(on)),
        _ => None,
    }
}

/// The keys after one entry of `[keys]`, or what is wrong with it.
pub open spec fn key_taken(
    file: Seq<(String, KeyValue)>,
    key: String,
    value: Setting,
) -> Result<Seq<(String, KeyValue)>, Seq<char>> {
    match key_value(value) {
        Some(said) => Ok(file.push((key, said))),
        None => Err(no_binding()),
    }
}

/// What a `[keys]` table says, in the order it was written.
pub open spec fn keys_taken(
    start: Seq<(String, KeyValue)>,
    entries: Seq<(String, Setting)>,
) -> Result<Seq<(String, KeyValue)>, Seq<char>>
    decreases entries.len(),
{
    if entries.len() == 0 {
        Ok(start)
    } else {
        match key_taken(start, entries[0].0, entries[0].1) {
            Ok(next) => keys_taken(next, entries.skip(1)),
            Err(e) => Err(e),
        }
    }
}

/// Read a `[keys]` table.
fn read_keys(entries: &Vec<(String, Setting)>) -> (r: Result<Vec<(String, KeyValue)>, String>)
    ensures
        match (r, keys_taken(Seq::empty(), entries@)) {
            (Ok(keys), Ok(said)) => keys@ == said,
            (Err(e), Err(said)) => e@ == said,
            _ => false,
        },
{
    let mut keys: Vec<(String, KeyValue)> = Vec::new();
    assert(entries@.skip(0) =~= entries@);
    for i in 0..entries.len()
        invariant
            keys_taken(Seq::empty(), entries@) == keys_taken(keys@, entries@.skip(i as int)),
    {
        assert(entries@.skip(i as int).skip(1) =~= entries@.skip(i + 1));
        let said = match &entries[i].1 {
            Setting::Text(name) => KeyValue::Name(name.clone()),
            Setting::Switch(on) => KeyValue::Off(*on),
            _ => {
                return Err("data did not match any variant of untagged enum KeyValue".to_owned());
            },
        };
        keys.push((entries[i].0.clone(), said));
    }
    Ok(keys)
}

/// The file after one of its tables, or what is wrong with it. A table that
/// nothing goes by is refused rather than ignored: a reader who misspelled it
/// has said something.
pub open spec fn section_taken(file: FileView, key: Seq<char>, value: Setting) -> Result<
    FileView,
    Seq<char>,
> {
    if key == "thresholds"@ {
        match value {
            Setting::Table(entries) => match taken(
                empty_thresholds(),
                entries@,
                |f: ThresholdsFile, k: Seq<char>, v: Setting| threshold_taken(f, k, v),
            ) {
                Ok(thresholds) => Ok(FileView { thresholds, ..file }),
                Err(e) => Err(e),
            },
            Setting::List(items) => match placed(
                empty_thresholds(),
                threshold_fields(),
                items@,
                "struct ThresholdsFile with 5 elements"@,
                |f: ThresholdsFile, k: Seq<char>, v: Setting| threshold_taken(f, k, v),
                0,
            ) {
                Ok(thresholds) => Ok(FileView { thresholds, ..file }),
                Err(e) => Err(e),
            },
            _ => Err(invalid_type(value, "struct ThresholdsFile"@)),
        }
    } else if key == "panels"@ {
        match value {
            Setting::Table(entries) => match taken(
                empty_panels(),
                entries@,
                |f: PanelsFile, k: Seq<char>, v: Setting| panel_taken(f, k, v),
            ) {
                Ok(panels) => Ok(FileView { panels, ..file }),
                Err(e) => Err(e),
            },
            Setting::List(items) => match placed(
                empty_panels(),
                panel_fields(),
                items@,
                "struct PanelsFile with 3 elements"@,
                |f: PanelsFile, k: Seq<char>, v: Setting| panel_taken(f, k, v),
                0,
            ) {
                Ok(panels) => Ok(FileView { panels, ..file }),
                Err(e) => Err(e),
            },
            _ => Err(invalid_type(value, "struct PanelsFile"@)),
        }
    } else if key == "forge"@ {
        match value {
            Setting::Table(entries) => match taken(
                empty_forge(),
                entries@,
                |f: ForgeFile, k: Seq<char>, v: Setting| forge_taken(f, k, v),
            ) {
                Ok(forge) => Ok(FileView { forge, ..file }),
                Err(e) => Err(e),
            },
            Setting::List(items) => match placed(
                empty_forge(),
                forge_fields(),
                items@,
                "struct ForgeFile with 2 elements"@,
                |f: ForgeFile, k: Seq<char>, v: Setting| forge_taken(f, k, v),
                0,
            ) {
                Ok(forge) => Ok(FileView { forge, ..file }),
                Err(e) => Err(e),
            },
            _ => Err(invalid_type(value, "struct ForgeFile"@)),
        }
    } else if key == "keys"@ {
        match value {
            Setting::Table(entries) => match keys_taken(Seq::empty(), entries@) {
                Ok(keys) => Ok(FileView { keys, ..file }),
                Err(e) => Err(e),
            },
            _ => Err(invalid_type(value, "a map"@)),
        }
    } else {
        Err(unknown_field(key, "one of `thresholds`, `panels`, `forge`, `keys`"@))
    }
}

/// Read one table of a file.
fn take_section(file: &mut File, key: &str, value: &Setting) -> (r: Result<(), String>)
    ensures
        match (r, section_taken(old(file)@, key@, *value)) {
            (Ok(_), Ok(next)) => final(file)@ == next,
            (Err(e), Err(said)) => e@ == said,
            _ => false,
        },
{
    if same(key, "thresholds") {
        match value {
            Setting::Table(entries) => match threshold(entries) {
                Ok(thresholds) => {
                    file.thresholds = thresholds;
                    Ok(())
                },
                Err(e) => Err(e),
            },
            Setting::List(items) => match threshold_list(items) {
                Ok(thresholds) => {
                    file.thresholds = thresholds;
                    Ok(())
                },
                Err(e) => Err(e),
            },
            _ => Err(say_invalid(value, "struct ThresholdsFile")),
        }
    } else if same(key, "panels") {
        match value {
            Setting::Table(entries) => match panel(entries) {
                Ok(panels) => {
                    file.panels = panels;
                    Ok(())
                },
                Err(e) => Err(e),
            },
            Setting::List(items) => match panel_list(items) {
                Ok(panels) => {
                    file.panels = panels;
                    Ok(())
                },
                Err(e) => Err(e),
            },
            _ => Err(say_invalid(value, "struct PanelsFile")),
        }
    } else if same(key, "forge") {
        match value {
            Setting::Table(entries) => match forge(entries) {
                Ok(forge) => {
                    file.forge = forge;
                    Ok(())
                },
                Err(e) => Err(e),
            },
            Setting::List(items) => match forge_list(items) {
                Ok(forge) => {
                    file.forge = forge;
                    Ok(())
                },
                Err(e) => Err(e),
            },
            _ => Err(say_invalid(value, "struct ForgeFile")),
        }
    } else if same(key, "keys") {
        match value {
            Setting::Table(entries) => match read_keys(entries) {
                Ok(keys) => {
                    file.keys = keys;
                    Ok(())
                },
                Err(e) => Err(e),
            },
            _ => Err(say_invalid(value, "a map")),
        }
    } else {
        Err(say_unknown(key, "one of `thresholds`, `panels`, `forge`, `keys`"))
    }
}

/// What a file's tables say, or what is wrong with the first that is wrong.
pub open spec fn file_said(entries: Seq<(String, Setting)>) -> Result<FileView, Seq<char>> {
    taken(empty_file(), entries, |f: FileView, k: Seq<char>, v: Setting| section_taken(f, k, v))
}

/// What a file's tables say.
pub fn read_file(entries: &Vec<(String, Setting)>) -> (r: Result<File, String>)
    ensures
        match (r, file_said(entries@)) {
            (Ok(file), Ok(said)) => file@ == said,
            (Err(e), Err(said)) => e@ == said,
            _ => false,
        },
{
    let mut file = File {
        thresholds: ThresholdsFile {
            auto_fold: None,
            side_by_side_min_width: None,
            tick_ms: None,
            debounce_ms: None,
            max_commits: None,
        },
        panels: PanelsFile { show_all: None, show_help: None, side_by_side: None },
        forge: ForgeFile { enabled: None, interval_secs: None },
        keys: Vec::new(),
    };
    assert(entries@.skip(0) =~= entries@);
    for i in 0..entries.len()
        invariant
            file_said(entries@) == taken(
                file@,
                entries@.skip(i as int),
                |f: FileView, k: Seq<char>, v: Setting| section_taken(f, k, v),
            ),
    {
        assert(entries@.skip(i as int).skip(1) =~= entries@.skip(i + 1));
        match take_section(&mut file, entries[i].0.as_str(), &entries[i].1) {
            Ok(_) => {},
            Err(e) => {
                return Err(e);
            },
        }
    }
    Ok(file)
}

/// What is set, or what holds where nothing is.
pub open spec fn set_or<T>(set: Option<T>, otherwise: T) -> T {
    match set {
        Some(v) => v,
        None => otherwise,
    }
}

/// The numbers in force.
pub open spec fn thresholds_of(file: ThresholdsFile) -> Thresholds {
    let d = default_thresholds();
    Thresholds {
        auto_fold: set_or(file.auto_fold, d.auto_fold),
        side_by_side_min_width: set_or(file.side_by_side_min_width, d.side_by_side_min_width),
        tick_ms: set_or(file.tick_ms, d.tick_ms),
        debounce_ms: set_or(file.debounce_ms, d.debounce_ms),
        max_commits: set_or(file.max_commits, d.max_commits),
    }
}

/// The panels in force.
pub open spec fn panels_of(file: PanelsFile) -> Panels {
    let d = default_panels();
    Panels {
        show_all: set_or(file.show_all, d.show_all),
        show_help: set_or(file.show_help, d.show_help),
        side_by_side: set_or(file.side_by_side, d.side_by_side),
    }
}

/// The forge in force.
pub open spec fn forge_of(file: ForgeFile) -> Forge {
    let d = default_forge();
    Forge {
        enabled: set_or(file.enabled, d.enabled),
        interval_secs: set_or(file.interval_secs, d.interval_secs),
    }
}

/// The bindings that `[keys]` asks for, or what is wrong with the first entry
/// that says nothing.
pub open spec fn bindings_asked(keys: Seq<(String, KeyValue)>) -> Result<
    Seq<(String, KeyBinding)>,
    Seq<char>,
>
    decreases keys.len(),
{
    if keys.len() == 0 {
        Ok(Seq::empty())
    } else {
        match bindings_asked(keys.drop_last()) {
            Err(e) => Err(e),
            Ok(rest) => match keys.last().1 {
                KeyValue::Name(name) => Ok(rest.push((keys.last().0, KeyBinding::Named(name)))),
                KeyValue::Off(on) => if on {
                    Err(quoted(keys.last().0@) + " = true says nothing about what it does"@)
                } else {
                    Ok(rest.push((keys.last().0, KeyBinding::Unbound)))
                },
            },
        }
    }
}

/// An entry that says nothing is what is wrong, whatever follows it.
proof fn lemma_asked_fails(keys: Seq<(String, KeyValue)>, i: int)
    requires
        0 <= i <= keys.len(),
        bindings_asked(keys.take(i)) is Err,
    ensures
        bindings_asked(keys) == bindings_asked(keys.take(i)),
    decreases keys.len() - i,
{
    if i == keys.len() {
        assert(keys.take(i) =~= keys);
    } else {
        assert(keys.take(i + 1).drop_last() =~= keys.take(i));
        lemma_asked_fails(keys, i + 1);
    }
}

fn asked(keys: &Vec<(String, KeyValue)>) -> (r: Result<Vec<(String, KeyBinding)>, String>)
    ensures
        match (r, bindings_asked(keys@)) {
            (Ok(entries), Ok(said)) => entries@ == said,
            (Err(e), Err(said)) => e@ == said,
            _ => false,
        },
{
    let mut entries: Vec<(String, KeyBinding)> = Vec::new();
    for i in 0..keys.len()
        invariant
            bindings_asked(keys@.take(i as int)) == Ok::<_, Seq<char>>(entries@),
    {
        assert(keys@.take(i + 1).drop_last() =~= keys@.take(i as int));
        let binding = match &keys[i].1 {
            KeyValue::Name(name) => KeyBinding::Named(name.clone()),
            KeyValue::Off(on) => if *on {
                proof {
                    lemma_asked_fails(keys@, i + 1);
                }
                return Err(
                    quote(keys[i].0.as_str()).concat(" = true says nothing about what it does"),
                );
            } else {
                KeyBinding::Unbound
            },
        };
        entries.push((keys[i].0.clone(), binding));
    }
    assert(keys@.take(keys@.len() as int) =~= keys@);
    Ok(entries)
}

/// The config that a file asks for, or what is wrong with it.
pub open spec fn resolved(file: FileView) -> Result<ConfigView, Seq<char>> {
    let forge = forge_of(file.forge);
    if forge.enabled && forge.interval_secs == 0 {
        Err(
            "forge.interval_secs = 0 would ask on every frame; set enabled = false to turn the forge off"@,
        )
    } else {
        match bindings_asked(file.keys) {
            Err(e) => Err(e),
            Ok(entries) => {
                let (bindings, said) = entries_applied(table(default_entries()), entries);
                match said {
                    Err(e) => Err(e),
                    Ok(_) => Ok(
                        ConfigView {
                            thresholds: thresholds_of(file.thresholds),
                            panels: panels_of(file.panels),
                            bindings,
                            forge,
                        },
                    ),
                }
            },
        }
    }
}

/// Whether a config, or an error, is what is said in the view.
pub open spec fn config_is(r: Result<Config, String>, said: Result<ConfigView, Seq<char>>) -> bool {
    match (r, said) {
        (Ok(config), Ok(view)) => config@ == view,
        (Err(e), Err(words)) => e@ == words,
        _ => false,
    }
}

/// The config that a file asks for.
///
/// A zero interval would mean a round on every tick of the event loop — four
/// `gh` processes a second per repository, which would exhaust a rate limit in
/// minutes and wedge the worker behind its own queue. Refused rather than
/// clamped: nobody writes `0` meaning "every two minutes", so silently
/// substituting a number would hide a mistake rather than fix it. Turning it
/// off is what `enabled = false` is for.
///
/// `key = true` says the key should be bound, without saying to what. Refused
/// rather than ignored: it is a reader meaning something, and guessing which
/// action would be worse.
pub fn resolve(file: &File) -> (r: Result<Config, String>)
    ensures
        config_is(r, resolved(file@)),
{
    let defaults = Thresholds::default();
    let thresholds = Thresholds {
        auto_fold: file.thresholds.auto_fold.unwrap_or(defaults.auto_fold),
        side_by_side_min_width: file.thresholds.side_by_side_min_width.unwrap_or(
            defaults.side_by_side_min_width,
        ),
        tick_ms: file.thresholds.tick_ms.unwrap_or(defaults.tick_ms),
        debounce_ms: file.thresholds.debounce_ms.unwrap_or(defaults.debounce_ms),
        max_commits: file.thresholds.max_commits.unwrap_or(defaults.max_commits),
    };
    let panel_defaults = Panels::default();
    let panels = Panels {
        show_all: file.panels.show_all.unwrap_or(panel_defaults.show_all),
        show_help: file.panels.show_help.unwrap_or(panel_defaults.show_help),
        side_by_side: file.panels.side_by_side.unwrap_or(panel_defaults.side_by_side),
    };
    let forge_defaults = Forge::default();
    let forge = Forge {
        enabled: file.forge.enabled.unwrap_or(forge_defaults.enabled),
        interval_secs: file.forge.interval_secs.unwrap_or(forge_defaults.interval_secs),
    };
    if forge.enabled && forge.interval_secs == 0 {
        return Err(
            "forge.interval_secs = 0 would ask on every frame; set enabled = false to turn the forge off".to_owned(),
        );
    }
    let entries = match asked(&file.keys) {
        Ok(entries) => entries,
        Err(e) => {
            return Err(e);
        },
    };
    let mut bindings = Bindings::default();
    match bindings.apply(&entries) {
        Ok(_) => Ok(Config { thresholds, panels, bindings, forge }),
        Err(e) => Err(e),
    }
}

/// The config that a document asks for, or what is wrong with it.
pub open spec fn config_said(document: Setting) -> Result<ConfigView, Seq<char>> {
    match document {
        Setting::Table(entries) => match file_said(entries@) {
            Ok(file) => resolved(file),
            Err(e) => Err(e),
        },
        _ => Err(invalid_type(document, "struct File"@)),
    }
}

/// The config that a document asks for.
pub fn from_document(document: &Setting) -> (r: Result<Config, String>)
    ensures
        config_is(r, config_said(*document)),
{
    match document {
        Setting::Table(entries) => match read_file(entries) {
            Ok(file) => resolve(&file),
            Err(e) => Err(e),
        },
        _ => Err(say_invalid(document, "struct File")),
    }
}

/// The config that a file's text asks for, or what is wrong with it.
pub open spec fn config_in(text: Seq<char>) -> Result<ConfigView, Seq<char>> {
    match parsed_toml(text) {
        Ok(value) => config_said(plain_setting(value)),
        Err(e) => Err(complaint_of(e)),
    }
}

/// Read a config file's text.
pub fn parse(text: &str) -> (r: Result<Config, String>)
    ensures
        config_is(r, config_in(text@)),
{
    match parse_toml(text) {
        Ok(value) => from_document(&converted(value)),
        Err(e) => Err(complaint(e)),
    }
}

/// Whether a config, or an error, is what reading a file comes to: the defaults
/// where there is nowhere to look or nothing there, and what the file asks for
/// otherwise.
pub open spec fn load_is(
    path: Option<Seq<char>>,
    read: Result<Option<Seq<char>>, Seq<char>>,
    r: Result<Config, ConfigError>,
) -> bool {
    match (path, read) {
        (None, _) | (_, Ok(None)) => r matches Ok(config) && config@ == default_config(),
        (Some(at), Err(said)) => r matches Err(ConfigError::Io { path, error }) && path@ == at
            && error@ == said,
        (Some(at), Ok(Some(text))) => match config_in(text) {
            Ok(view) => r matches Ok(config) && config@ == view,
            Err(said) => r matches Err(ConfigError::Parse { path, message }) && path@ == at
                && message@ == said,
        },
    }
}

/// Read the config, or the defaults if there is none, given where the file
/// would be and what reading it gave: nothing where no such file exists, its
/// text, or what the system said.
///
/// A missing file is `Ok` with the defaults — that is the ordinary case, not an
/// error. Only a file that exists and cannot be used is reported.
pub fn load(path: Option<String>, read: Result<Option<String>, String>) -> (r: Result<
    Config,
    ConfigError,
>)
    ensures
        load_is(
            text_view(path),
            match read {
                Ok(text) => Ok(text_view(text)),
                Err(e) => Err(e@),
            },
            r,
        ),
{
    let path = match path {
        Some(path) => path,
        None => {
            return Ok(Config::default());
        },
    };
    match read {
        Ok(Some(text)) => match parse(text.as_str()) {
            Ok(config) => Ok(config),
            Err(message) => Err(ConfigError::Parse { path, message }),
        },
        Ok(None) => Ok(Config::default()),
        Err(error) => Err(ConfigError::Io { path, error }),
    }
}

/// A file that sets nothing asks for what a reader without one has.
pub proof fn an_empty_file_is_the_defaults()
    ensures
        file_said(Seq::empty()) == Ok::<_, Seq<char>>(empty_file()),
        resolved(empty_file()) == Ok::<_, Seq<char>>(default_config()),
{
    assert(bindings_asked(Seq::empty()) == Ok::<Seq<(String, KeyBinding)>, Seq<char>>(Seq::empty()));
}

/// A config in force never has the forge asked without a pause.
pub proof fn an_enabled_forge_waits(file: FileView)
    requires
        resolved(file) matches Ok(config) && config.forge.enabled,
    ensures
        resolved(file)->Ok_0.forge.interval_secs > 0,
{
}

} // verus!
