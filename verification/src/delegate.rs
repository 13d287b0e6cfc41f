//! Asking an agent to do what strays will not do itself.
//!
//! # The invariant this exists to keep
//!
//! Strays never writes. Every git call it makes is a query. Committing and
//! staging are writes, so they cannot be done here — but they can be *asked
//! for*, and this is where the asking is composed.
//!
//! # Why an agent rather than running git
//!
//! Not caution for its own sake. An agent is usually working in the same
//! repository at the same time, and a write from underneath it would land in
//! the middle of whatever it is doing. Handing the instruction to the agent puts
//! the operation in the one place that knows what else is in flight.
//!
//! # Typed, never submitted
//!
//! The text is typed into the agent's input and that is all. The agent sees the
//! instruction with the cursor at the end of it and the user presses Enter — or
//! does not. That last gate is what makes this safe to bind to a single key:
//! nothing here can act without a human reading it first.
//!
//! # What is not here
//!
//! No discard, no reset, no force push. Those destroy work rather than record
//! it, and an agent mid-edit is exactly the wrong audience for an irreversible
//! instruction. They are absent by design.

use vstd::prelude::*;
use vstd::string::*;

use crate::text::{trim, trimmed};

verus! {

/// What the user asked for.
#[derive(Debug, PartialEq, Eq)]
pub enum Action {
    /// Record the named paths, with a message.
    Commit { message: String },
    /// Add the named paths to the index.
    Stage,
    /// Take the named paths back out of the index.
    Unstage,
    /// Set the named paths aside, with a message.
    Stash { message: String },
}

impl Clone for Action {
    fn clone(&self) -> (r: Self)
        ensures
            r == *self,
    {
        match self {
            Action::Commit { message } => Action::Commit { message: message.clone() },
            Action::Stage => Action::Stage,
            Action::Unstage => Action::Unstage,
            Action::Stash { message } => Action::Stash { message: message.clone() },
        }
    }
}

/// The word for an action.
pub open spec fn action_word(action: Action) -> Seq<char> {
    match action {
        Action::Commit { .. } => "commit"@,
        Action::Stage => "stage"@,
        Action::Unstage => "unstage"@,
        Action::Stash { .. } => "stash"@,
    }
}

impl Action {
    /// How this reads in the status line once it has been sent.
    pub fn summary(&self) -> (r: &'static str)
        ensures
            r@ == action_word(*self),
    {
        match self {
            Action::Commit { .. } => "commit",
            Action::Stage => "stage",
            Action::Unstage => "unstage",
            Action::Stash { .. } => "stash",
        }
    }
}

/// What the action applies to.
///
/// Named separately from the action because the same instruction reads
/// differently for one file and for everything: "commit src/a.rs" and "commit
/// everything that has changed" are both useful, and conflating them would
/// leave the agent guessing.
#[derive(Debug, PartialEq, Eq)]
pub enum Scope {
    /// One file, by its path relative to the repository.
    File(String),
    /// Everything that has changed in the repository.
    Everything,
}

impl Clone for Scope {
    fn clone(&self) -> (r: Self)
        ensures
            r == *self,
    {
        match self {
            Scope::File(path) => Scope::File(path.clone()),
            Scope::Everything => Scope::Everything,
        }
    }
}

impl Scope {
    /// How a scope reads in an instruction.
    pub open spec fn words(&self) -> Seq<char> {
        match self {
            Scope::File(path) => path@,
            Scope::Everything => "everything that has changed"@,
        }
    }

    /// The scope from what the cursor is on.
    ///
    /// A file row names that file; a project or directory row means the whole
    /// repository, which is what the reader is looking at there.
    pub fn of(stray: Option<&str>) -> (r: Self)
        ensures
            match stray {
                Some(path) => r matches Scope::File(p) && p@ == path@,
                None => r is Everything,
            },
    {
        match stray {
            Some(path) => Scope::File(path.to_owned()),
            None => Scope::Everything,
        }
    }
}

/// The instruction for an action.
pub open spec fn instruction_text(action: Action, scope: Scope) -> Seq<char> {
    match action {
        Action::Commit { message } => "Please commit "@ + scope.words() + " with the message: "@
            + message@,
        Action::Stage => "Please stage "@ + scope.words(),
        Action::Unstage => "Please unstage "@ + scope.words(),
        Action::Stash { message } => if trimmed(message@).len() == 0 {
            "Please stash "@ + scope.words()
        } else {
            "Please stash "@ + scope.words() + " with the message: "@ + message@
        },
    }
}

/// Compose the instruction for an action.
///
/// Prose rather than a git command line. The agent is being asked to do
/// something in a repository it already understands, and a sentence leaves it
/// free to notice what a literal command would not — a pre-commit hook, an
/// unrelated file already staged, a message that does not match the change.
///
/// Everything the user typed is sanitised by [`crate::agent::compose`] before it
/// reaches the agent's terminal, so no control character in a message or a path
/// can act on the receiving pane.
pub fn instruction(action: &Action, scope: &Scope) -> (r: String)
    ensures
        r@ == instruction_text(*action, *scope),
{
    let what = match scope {
        Scope::File(path) => path.clone(),
        Scope::Everything => "everything that has changed".to_owned(),
    };
    match action {
        Action::Commit { message } => "Please commit ".to_owned().concat(what.as_str()).concat(
            " with the message: ",
        ).concat(message.as_str()),
        Action::Stage => "Please stage ".to_owned().concat(what.as_str()),
        Action::Unstage => "Please unstage ".to_owned().concat(what.as_str()),
        Action::Stash { message } => {
            if trim(message.as_str()).is_empty() {
                "Please stash ".to_owned().concat(what.as_str())
            } else {
                "Please stash ".to_owned().concat(what.as_str()).concat(
                    " with the message: ",
                ).concat(message.as_str())
            }
        },
    }
}

/// Whether an action can be asked for with what the user has typed.
pub open spec fn ready(action: Action) -> bool {
    match action {
        Action::Commit { message } => trimmed(message@).len() > 0,
        _ => true,
    }
}

/// Whether an action can be asked for with what the user has typed.
///
/// A commit with no message is the one case worth refusing outright: the agent
/// would either invent one or stop and ask, and neither is what the key was
/// pressed for. A stash with no message is ordinary — git writes its own.
pub fn is_ready(action: &Action) -> (r: bool)
    ensures
        r == ready(*action),
{
    match action {
        Action::Commit { message } => !trim(message.as_str()).is_empty(),
        Action::Stash { .. } => true,
        Action::Stage => true,
        Action::Unstage => true,
    }
}

} // verus!
