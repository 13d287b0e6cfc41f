//! Editor hand-off.
//!
//! # Why this never touches a shell
//!
//! A path in the list comes from `git status`, which means it can come from
//! checking out someone else's branch. A filename is data from elsewhere.
//! Building a command string and handing it to `sh -c` would turn a filename
//! like `foo; rm -rf ~` into execution, so the file path is *always* its own
//! argument and handed on as it is.
//!
//! `$EDITOR` itself is different: it is the user's own configured value and may
//! legitimately carry arguments (`code --wait`). It is word-split so those
//! arguments survive — but the split never sees the filename.
//!
//! Arguments alone are not the whole story: a file named `--squash` is a valid
//! filename that every editor's own option parser would read as a flag, so the
//! path is additionally guarded by a `--` separator. See [`build_argv`].

use vstd::prelude::*;
use vstd::string::*;

use crate::model::Stray;
use crate::paths::{join_paths, joined};
use crate::text::{texts, trim, trimmed};

verus! {

/// Why a file is not handed to an editor.
#[derive(Debug, PartialEq, Eq)]
pub enum EditorError {
    /// The stray has no file left on disk to open.
    NothingToOpen,
    /// The stray is a submodule, i.e. a directory.
    IsSubmodule,
    /// `$EDITOR`/`$VISUAL` was set but could not be parsed into arguments.
    Unparsable(String),
    /// The configured editor value contained no command at all.
    Empty,
}

impl EditorError {
    /// The error in words.
    pub open spec fn text(&self) -> Seq<char> {
        match self {
            EditorError::NothingToOpen => "deleted file — nothing left in the worktree to open"@,
            EditorError::IsSubmodule => "submodule — a directory, not a file to open"@,
            EditorError::Unparsable(v) => "could not parse $EDITOR ("@ + v@ + ") into arguments"@,
            EditorError::Empty => "$EDITOR is set but empty"@,
        }
    }

    /// The error in words.
    pub fn message(&self) -> (r: String)
        ensures
            r@ == self.text(),
    {
        match self {
            EditorError::NothingToOpen => "deleted file — nothing left in the worktree to open".to_owned(),
            EditorError::IsSubmodule => "submodule — a directory, not a file to open".to_owned(),
            EditorError::Unparsable(v) => "could not parse $EDITOR (".to_owned().concat(
                v.as_str(),
            ).concat(") into arguments"),
            EditorError::Empty => "$EDITOR is set but empty".to_owned(),
        }
    }
}

/// Why an editor was not opened.
#[derive(Debug, PartialEq, Eq)]
pub enum OpenError {
    Editor(EditorError),
    /// The editor could not be started, and what the system said about it.
    Spawn(String),
}

impl OpenError {
    /// The error in words.
    pub open spec fn text(&self) -> Seq<char> {
        match self {
            OpenError::Editor(e) => e.text(),
            OpenError::Spawn(e) => "could not start editor: "@ + e@,
        }
    }

    /// The error in words.
    pub fn message(&self) -> (r: String)
        ensures
            r@ == self.text(),
    {
        match self {
            OpenError::Editor(e) => e.message(),
            OpenError::Spawn(e) => "could not start editor: ".to_owned().concat(e.as_str()),
        }
    }
}

/// Whether a variable says anything.
pub open spec fn is_set(v: Option<String>) -> bool {
    v matches Some(s) && trimmed(s@).len() > 0
}

/// The editor preference: `$VISUAL`, then `$EDITOR`, then `vi`, which POSIX
/// mandates.
pub fn editor_setting(visual: Option<String>, editor: Option<String>) -> (r: String)
    ensures
        is_set(visual) ==> Some(r) == visual,
        !is_set(visual) && is_set(editor) ==> Some(r) == editor,
        !is_set(visual) && !is_set(editor) ==> r@ == "vi"@,
{
    if let Some(v) = visual {
        if !trim(v.as_str()).is_empty() {
            return v;
        }
    }
    if let Some(e) = editor {
        if !trim(e.as_str()).is_empty() {
            return e;
        }
    }
    "vi".to_owned()
}

/// The error of `shell_words::split`.
#[verifier::external_type_specification]
#[verifier::external_body]
pub struct ExParseError(shell_words::ParseError);

/// The words that `shell_words::split` splits a command line into, or `None`
/// where a quote in it is not closed.
pub uninterp spec fn shell_split(line: Seq<char>) -> Option<Seq<Seq<char>>>;

/// `shell_words::split`: the words of a command line as a Unix shell has them,
/// or an error where a quote is not closed. Which words they are is left
/// unsaid; they depend on the line alone.
#[verifier::external_body]
fn split_words(line: &str) -> (r: Result<Vec<String>, shell_words::ParseError>)
    ensures
        match r {
            Ok(words) => shell_split(line@) == Some(texts(words@)),
            Err(_) => shell_split(line@) is None,
        },
{
    shell_words::split(line)
}

/// The arguments for opening a file with an editor, given the words that its
/// setting splits into.
pub open spec fn argv_of(words: Seq<Seq<char>>, file: Seq<char>) -> Seq<Seq<char>> {
    words + seq!["--"@, file]
}

/// The arguments for opening `file`, given the words that the editor's setting
/// splits into, or why there are none.
pub fn argv_from(words: Option<Vec<String>>, setting: &str, file: &str) -> (r: Result<
    Vec<String>,
    EditorError,
>)
    ensures
        match words {
            None => r matches Err(EditorError::Unparsable(v)) && v@ == setting@,
            Some(ws) => if ws@.len() == 0 {
                r matches Err(EditorError::Empty)
            } else {
                r matches Ok(argv) && texts(argv@) == argv_of(texts(ws@), file@)
            },
        },
{
    match words {
        None => Err(EditorError::Unparsable(setting.to_owned())),
        Some(ws) => {
            if ws.len() == 0 {
                return Err(EditorError::Empty);
            }
            let mut argv = ws;
            let ghost before = texts(argv@);
            argv.push("--".to_owned());
            // The one and only place the filename enters the command line.
            argv.push(file.to_owned());
            assert(texts(argv@) =~= argv_of(before, file@));
            Ok(argv)
        },
    }
}

/// Build the arguments for opening `file` with `setting`.
///
/// They are `[program, ...editor args, "--", file]`. The file path is appended
/// as a single element and is never word-split, quoted, escaped, or
/// concatenated into any other element.
///
/// The `--` separator is not decoration. A worktree really can contain a file
/// named `--squash` or `-R`, and every editor that parses its arguments would
/// read that leading dash as an option rather than a filename. Passing the path
/// as its own element defeats the shell; `--` is what defeats the editor's own
/// option parser.
pub fn build_argv(setting: &str, file: &str) -> (r: Result<Vec<String>, EditorError>)
    ensures
        match shell_split(setting@) {
            None => r matches Err(EditorError::Unparsable(v)) && v@ == setting@,
            Some(words) => if words.len() == 0 {
                r matches Err(EditorError::Empty)
            } else {
                r matches Ok(argv) && texts(argv@) == argv_of(words, file@)
            },
        },
{
    let words = match split_words(setting) {
        Ok(words) => Some(words),
        Err(_) => None,
    };
    argv_from(words, setting, file)
}

/// Whatever an editor's setting is, the file is the last argument, as it is, and
/// `--` stands right before it.
pub proof fn the_file_is_the_last_argument(words: Seq<Seq<char>>, file: Seq<char>)
    ensures
        argv_of(words, file).last() == file,
        argv_of(words, file)[argv_of(words, file).len() - 2] == "--"@,
        argv_of(words, file).take(words.len() as int) == words,
{
    assert(argv_of(words, file).take(words.len() as int) =~= words);
}

/// Resolve the absolute path handed to the editor, refusing deleted strays.
pub fn target_path(repo: &str, stray: &Stray) -> (r: Result<String, EditorError>)
    ensures
        stray.status is Submodule ==> r == Err::<String, EditorError>(EditorError::IsSubmodule),
        stray.status is Deleted ==> r == Err::<String, EditorError>(EditorError::NothingToOpen),
        !(stray.status is Submodule) && !(stray.status is Deleted) ==> (r matches Ok(path) && path@
            == joined(repo@, stray.path@)),
{
    if stray.status.is_submodule() {
        return Err(EditorError::IsSubmodule);
    }
    if !stray.status.is_openable() {
        return Err(EditorError::NothingToOpen);
    }
    Ok(join_paths(repo, stray.path.as_str()))
}

} // verus!
