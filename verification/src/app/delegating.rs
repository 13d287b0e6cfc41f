//! Asking the agent to commit, stage, unstage or stash.
//!
//! Every one of these is a write, and strays does not write. What it does is
//! compose an instruction and type it into the agent's input — see
//! [`crate::delegate`] for why that is the boundary and what it buys.
//!
//! Two of the four need a message, so they open an input line first and behave
//! like the prompt and annotation lines while it is open: the keyboard belongs
//! to the line, and a `q` typed into a commit message does not quit the viewer.

use vstd::prelude::*;
use vstd::string::*;
use vstd::view::View as _;

use crate::agent::{address, compose, composed, parcel_is, pick, Agent, Parcel, SendError};
use crate::app::prompt::{agent_in, tell, tells_of};
use crate::app::{noticed, says, App, Input, Notice, View};
use crate::delegate::{action_word, instruction, instruction_text, is_ready, ready, Action, Scope};
use crate::text::{push_char, without_last};

verus! {

/// A delegated action part-way through being composed.
#[derive(Debug, Clone, PartialEq, Eq)]
pub struct Delegating {
    /// What will be asked for, with whatever has been typed so far.
    pub action: Action,
    /// What it applies to, fixed when the line opened.
    ///
    /// Captured up front so that scrolling or a background refresh underneath
    /// cannot change what is about to be committed.
    pub scope: Scope,
}

/// What has been typed of an action.
pub open spec fn typed(action: Action) -> Seq<char> {
    match action {
        Action::Commit { message } => message@,
        Action::Stash { message } => message@,
        _ => Seq::empty(),
    }
}

/// Whether an action is another one with a message in place of what was typed.
/// An action without a message stays as it is.
pub open spec fn retyped(before: Action, message: Seq<char>, after: Action) -> bool {
    match before {
        Action::Commit { .. } => after matches Action::Commit { message: now } && now@ == message,
        Action::Stash { .. } => after matches Action::Stash { message: now } && now@ == message,
        _ => after == before,
    }
}

impl Delegating {
    /// The line's own label, so the reader can see which key they pressed.
    pub fn label(&self) -> (r: &'static str)
        ensures
            r@ == (match self.action {
                Action::Commit { .. } => "commit message"@,
                Action::Stash { .. } => "stash message"@,
                Action::Stage => "stage"@,
                Action::Unstage => "unstage"@,
            }),
    {
        match &self.action {
            Action::Commit { .. } => "commit message",
            Action::Stash { .. } => "stash message",
            Action::Stage => "stage",
            Action::Unstage => "unstage",
        }
    }

    /// What has been typed so far.
    pub fn text(&self) -> (r: &str)
        ensures
            r@ == typed(self.action),
    {
        match &self.action {
            Action::Commit { message } => message.as_str(),
            Action::Stash { message } => message.as_str(),
            _ => {
                proof {
                    reveal_strlit("");
                    assert(""@ =~= Seq::<char>::empty());
                }
                ""
            },
        }
    }

    /// The same action with `message` in place of what was typed.
    fn with_text(&self, message: String) -> (r: Action)
        ensures
            retyped(self.action, message@, r),
    {
        match &self.action {
            Action::Commit { .. } => Action::Commit { message },
            Action::Stash { .. } => Action::Stash { message },
            Action::Stage => Action::Stage,
            Action::Unstage => Action::Unstage,
        }
    }
}

/// What an action applies to, from where the cursor is: the file under it, or
/// everything.
pub open spec fn scope_is(app: App, scope: Scope) -> bool {
    if app.spot() is Some {
        scope matches Scope::File(path) && path@ == app.stray_here().path@
    } else {
        scope is Everything
    }
}

/// Whether there is a project and nobody in it to delegate to.
pub open spec fn nobody_here(app: App, agents: Seq<Agent>) -> bool {
    app.data.projects@.len() > 0 && !agent_in(agents, app.data.projects@[0].project.root@)
}

/// Whether an app is another one with the message line opened for an action.
pub open spec fn begun(before: App, after: App) -> bool {
    &&& after.input.delegating matches Some(d) && typed(d.action).len() == 0 && scope_is(
        before,
        d.scope,
    )
    &&& after == (App {
        input: Input { delegating: after.input.delegating, ..before.input },
        ..before
    })
}

/// Whether a notice tells how the hand-off of an action went.
pub open spec fn tells_of_action(
    notice: Option<Notice>,
    app: App,
    agents: Seq<Agent>,
    sent: Result<(), SendError>,
    action: Action,
) -> bool {
    if app.data.projects@.len() == 0 {
        says(notice, SendError::NoAgent.text(), true)
    } else {
        tells_of(
            notice,
            agents,
            app.data.projects@[0].project.root@,
            sent,
            action_word(action) + " sent to the agent — press Enter there to run it"@,
        )
    }
}

/// The text that an action is handed over as. The path is already inside the
/// instruction, so no other is put in front of it.
pub open spec fn action_text(action: Action, scope: Scope) -> Seq<char> {
    composed(Seq::empty(), instruction_text(action, scope))
}

impl App {
    /// Begin a commit: open the message line.
    pub fn begin_commit(self, agents: &Vec<Agent>) -> (r: Self)
        ensures
            nobody_here(self, agents@) ==> noticed(self, r, SendError::NoAgent.text(), true),
            !nobody_here(self, agents@) ==> begun(self, r) && r.input.delegating->Some_0.action
                is Commit,
    {
        self.begin_delegating(Action::Commit { message: String::new() }, agents)
    }

    /// Begin a stash: open the message line.
    ///
    /// Unlike a commit, an empty message is fine — git writes its own — so this
    /// can be sent straight away with Enter.
    pub fn begin_stash(self, agents: &Vec<Agent>) -> (r: Self)
        ensures
            nobody_here(self, agents@) ==> noticed(self, r, SendError::NoAgent.text(), true),
            !nobody_here(self, agents@) ==> begun(self, r) && r.input.delegating->Some_0.action
                is Stash,
    {
        self.begin_delegating(Action::Stash { message: String::new() }, agents)
    }

    /// Tell how asking the agent to stage what the cursor is on went.
    ///
    /// No message to type, so this goes straight out rather than opening a line
    /// for nothing.
    pub fn delegate_stage(self, agents: &Vec<Agent>, sent: Result<(), SendError>) -> (r: Self)
        ensures
            tells_of_action(r.view.notice, self, agents@, sent, Action::Stage),
            r == (App { view: View { notice: r.view.notice, ..self.view }, ..self }),
    {
        let notice = self.handed_over(&Action::Stage, agents, &sent);
        self.with_notice(notice)
    }

    /// Tell how asking the agent to unstage what the cursor is on went.
    pub fn delegate_unstage(self, agents: &Vec<Agent>, sent: Result<(), SendError>) -> (r: Self)
        ensures
            tells_of_action(r.view.notice, self, agents@, sent, Action::Unstage),
            r == (App { view: View { notice: r.view.notice, ..self.view }, ..self }),
    {
        let notice = self.handed_over(&Action::Unstage, agents, &sent);
        self.with_notice(notice)
    }

    /// Open the input line for an action that needs one.
    ///
    /// An agent is looked for before the line opens. Typing a commit message
    /// only to be told there is nobody to hand it to wastes the typing.
    fn begin_delegating(self, action: Action, agents: &Vec<Agent>) -> (r: Self)
        requires
            typed(action).len() == 0,
        ensures
            nobody_here(self, agents@) ==> noticed(self, r, SendError::NoAgent.text(), true),
            !nobody_here(self, agents@) ==> begun(self, r) && r.input.delegating->Some_0.action
                == action,
    {
        let nobody = match self.first_root() {
            Some(root) => pick(agents, root.as_str()).is_none(),
            None => false,
        };
        if nobody {
            return self.with_notice(Notice::error(SendError::NoAgent.message()));
        }
        let scope = self.scope_under_cursor();
        App {
            input: Input { delegating: Some(Delegating { action, scope }), ..self.input },
            ..self
        }
    }

    /// What to type into the agent's input, and into whose, to ask for an action
    /// that needs nothing typed.
    pub fn action_parcel(&self, action: &Action, agents: &Vec<Agent>) -> (r: Option<Parcel>)
        ensures
            self.data.projects@.len() == 0 ==> r is None,
            self.data.projects@.len() > 0 ==> exists|scope: Scope| #[trigger]
                scope_is(*self, scope) && parcel_is(
                    r,
                    agents@,
                    self.data.projects@[0].project.root@,
                    action_text(*action, scope),
                ),
    {
        let scope = self.scope_under_cursor();
        let r = self.parcel_for(action, &scope, agents);
        assert(scope_is(*self, scope));
        r
    }

    /// Add a character to the message being typed.
    pub fn delegate_push(self, c: char) -> (r: Self)
        ensures
            match self.input.delegating {
                Some(d) => {
                    &&& r.input.delegating matches Some(now)
                    &&& retyped(d.action, typed(d.action).push(c), now.action)
                    &&& now.scope == d.scope
                    &&& r == (App {
                        input: Input { delegating: r.input.delegating, ..self.input },
                        ..self
                    })
                },
                None => r == self,
            },
    {
        let next = match &self.input.delegating {
            Some(d) => Delegating {
                action: d.with_text(push_char(d.text(), c)),
                scope: d.scope.clone(),
            },
            None => {
                return self;
            },
        };
        App { input: Input { delegating: Some(next), ..self.input }, ..self }
    }

    /// Remove the last character of the message being typed.
    pub fn delegate_backspace(self) -> (r: Self)
        ensures
            match self.input.delegating {
                Some(d) => {
                    &&& r.input.delegating matches Some(now)
                    &&& retyped(
                        d.action,
                        if typed(d.action).len() > 0 {
                            typed(d.action).drop_last()
                        } else {
                            typed(d.action)
                        },
                        now.action,
                    )
                    &&& now.scope == d.scope
                    &&& r == (App {
                        input: Input { delegating: r.input.delegating, ..self.input },
                        ..self
                    })
                },
                None => r == self,
            },
    {
        let next = match &self.input.delegating {
            Some(d) => Delegating {
                action: d.with_text(without_last(d.text())),
                scope: d.scope.clone(),
            },
            None => {
                return self;
            },
        };
        App { input: Input { delegating: Some(next), ..self.input }, ..self }
    }

    /// Abandon the action, typing and all.
    pub fn cancel_delegating(self) -> (r: Self)
        ensures
            r == (App { input: Input { delegating: None, ..self.input }, ..self }),
    {
        App { input: Input { delegating: None, ..self.input }, ..self }
    }

    /// What to type into the agent's input, and into whose, once the message is
    /// written.
    pub fn delegating_parcel(&self, agents: &Vec<Agent>) -> (r: Option<Parcel>)
        ensures
            match self.input.delegating {
                Some(d) if self.data.projects@.len() > 0 && ready(d.action) => parcel_is(
                    r,
                    agents@,
                    self.data.projects@[0].project.root@,
                    action_text(d.action, d.scope),
                ),
                _ => r is None,
            },
    {
        match &self.input.delegating {
            Some(d) => if is_ready(&d.action) {
                self.parcel_for(&d.action, &d.scope, agents)
            } else {
                None
            },
            None => None,
        }
    }

    /// Close the message line once the action has been handed over, given the
    /// agents running and how the hand-off went.
    ///
    /// A commit with no message is refused and the line stays open: the reader
    /// pressed Enter meaning to commit, and closing the line would throw away
    /// the intent along with the keystroke.
    pub fn send_delegating(self, agents: &Vec<Agent>, sent: Result<(), SendError>) -> (r: Self)
        ensures
            match self.input.delegating {
                None => r == self,
                Some(d) => if !ready(d.action) {
                    noticed(self, r, "a commit needs a message"@, true)
                } else {
                    &&& tells_of_action(r.view.notice, self, agents@, sent, d.action)
                    &&& r == (App {
                        view: View { notice: r.view.notice, ..self.view },
                        input: Input { delegating: None, ..self.input },
                        ..self
                    })
                },
            },
    {
        let notice = match &self.input.delegating {
            Some(d) => if !is_ready(&d.action) {
                return self.refused("a commit needs a message");
            } else {
                self.handed_over(&d.action, agents, &sent)
            },
            None => {
                return self;
            },
        };
        App {
            view: View { notice: Some(notice), ..self.view },
            input: Input { delegating: None, ..self.input },
            ..self
        }
    }

    /// Compose the instruction and address it to the agent of the first project.
    fn parcel_for(&self, action: &Action, scope: &Scope, agents: &Vec<Agent>) -> (r: Option<Parcel>)
        ensures
            self.data.projects@.len() == 0 ==> r is None,
            self.data.projects@.len() > 0 ==> parcel_is(
                r,
                agents@,
                self.data.projects@[0].project.root@,
                action_text(*action, *scope),
            ),
    {
        match self.first_root() {
            Some(root) => {
                let text = instruction(action, scope);
                proof {
                    reveal_strlit("");
                    assert(""@ =~= Seq::<char>::empty());
                }
                address(agents, root.as_str(), compose("", text.as_str()))
            },
            None => None,
        }
    }

    /// What the status line should say of how a hand-off went.
    fn handed_over(
        &self,
        action: &Action,
        agents: &Vec<Agent>,
        sent: &Result<(), SendError>,
    ) -> (r: Notice)
        ensures
            tells_of_action(Some(r), *self, agents@, *sent, *action),
    {
        match self.first_root() {
            Some(root) => tell(
                agents,
                root.as_str(),
                sent,
                action.summary().to_owned().concat(" sent to the agent — press Enter there to run it"),
            ),
            None => Notice::error(SendError::NoAgent.message()),
        }
    }

    /// What the action should apply to, from where the cursor is.
    fn scope_under_cursor(&self) -> (r: Scope)
        ensures
            scope_is(*self, r),
    {
        match self.selected_stray() {
            Some((_, stray)) => Scope::of(Some(stray.path.as_str())),
            None => Scope::of(None),
        }
    }
}

} // verus!
