//! The prompt line: writing a note about the selected file for an agent.
//!
//! While the prompt is open it owns the keyboard, so a prompt containing the
//! letter `q` cannot quit the viewer.
//!
//! The text is typed into the agent's input but never submitted — that is the
//! whole point of the hand-off, and [`crate::agent::compose`] replaces the
//! control characters that could press Enter on the user's behalf.

use vstd::prelude::*;
use vstd::string::*;
use vstd::view::View as _;

use crate::agent::{
    address, agent_views, compose, composed, parcel_is, pick, picked, Agent, Parcel, SendError,
};
use crate::app::{noticed, says, App, Input, Notice, View};
use crate::text::{push_char, without_last};

verus! {

/// Whether an agent is running in a repository.
pub open spec fn agent_in(agents: Seq<Agent>, repo: Seq<char>) -> bool {
    picked(agent_views(agents), repo) is Some
}

/// Whether an app is another one with the prompt line opened.
pub open spec fn prompt_opened(before: App, after: App) -> bool {
    &&& after.input.prompt matches Some(text)
    &&& text@.len() == 0
    &&& after == (App { input: Input { prompt: after.input.prompt, ..before.input }, ..before })
}

/// Whether a notice tells how a hand-off went.
pub open spec fn tells_of(
    notice: Option<Notice>,
    agents: Seq<Agent>,
    repo: Seq<char>,
    sent: Result<(), SendError>,
    success: Seq<char>,
) -> bool {
    if !agent_in(agents, repo) {
        says(notice, SendError::NoAgent.text(), true)
    } else {
        match sent {
            Ok(_) => says(notice, success, false),
            Err(e) => says(notice, e.text(), true),
        }
    }
}

/// What to say of how a hand-off went.
pub(crate) fn tell(
    agents: &Vec<Agent>,
    repo: &str,
    sent: &Result<(), SendError>,
    success: String,
) -> (r: Notice)
    ensures
        tells_of(Some(r), agents@, repo@, *sent, success@),
{
    match pick(agents, repo) {
        Some(_) => match sent {
            Ok(_) => Notice::info(success),
            Err(e) => Notice::error(e.message()),
        },
        None => Notice::error(SendError::NoAgent.message()),
    }
}

impl App {
    /// Open the prompt line for the selected file, given the agents running.
    ///
    /// Refuses on rows that name no file, and when no agent is running in that
    /// file's repository — there would be nowhere to send the text.
    pub fn begin_prompt(self, agents: &Vec<Agent>) -> (r: Self)
        ensures
            self.spot() is None ==> noticed(self, r, "select a file to prompt about"@, true),
            self.spot() is Some && !agent_in(agents@, self.root_here()) ==> noticed(
                self,
                r,
                SendError::NoAgent.text(),
                true,
            ),
            self.spot() is Some && agent_in(agents@, self.root_here()) ==> prompt_opened(self, r),
    {
        let found = match self.selected_stray() {
            Some((root, _)) => pick(agents, root.as_str()).is_some(),
            None => {
                return self.refused("select a file to prompt about");
            },
        };
        if !found {
            return self.with_notice(Notice::error(SendError::NoAgent.message()));
        }
        App { input: Input { prompt: Some(String::new()), ..self.input }, ..self }
    }

    /// Append a character to the prompt being typed.
    pub fn prompt_push(self, c: char) -> (r: Self)
        ensures
            match self.input.prompt {
                Some(text) => {
                    &&& r.input.prompt matches Some(now)
                    &&& now@ == text@.push(c)
                    &&& r == (App { input: Input { prompt: r.input.prompt, ..self.input }, ..self })
                },
                None => r == self,
            },
    {
        match &self.input.prompt {
            Some(text) => {
                let prompt = Some(push_char(text.as_str(), c));
                App { input: Input { prompt, ..self.input }, ..self }
            },
            None => self,
        }
    }

    /// Remove the last character from the prompt.
    pub fn prompt_backspace(self) -> (r: Self)
        ensures
            match self.input.prompt {
                Some(text) => {
                    &&& r.input.prompt matches Some(now)
                    &&& now@ == (if text@.len() > 0 {
                        text@.drop_last()
                    } else {
                        text@
                    })
                    &&& r == (App { input: Input { prompt: r.input.prompt, ..self.input }, ..self })
                },
                None => r == self,
            },
    {
        match &self.input.prompt {
            Some(text) => {
                let prompt = Some(without_last(text.as_str()));
                App { input: Input { prompt, ..self.input }, ..self }
            },
            None => self,
        }
    }

    /// Abandon the prompt without sending it.
    pub fn cancel_prompt(self) -> (r: Self)
        ensures
            r == (App { input: Input { prompt: None, ..self.input }, ..self }),
    {
        App { input: Input { prompt: None, ..self.input }, ..self }
    }

    /// What to type into the agent's input, and into whose, when the prompt is
    /// open on a file and an agent is running in its repository.
    pub fn prompt_parcel(&self, agents: &Vec<Agent>) -> (r: Option<Parcel>)
        ensures
            match self.input.prompt {
                Some(text) if self.spot() is Some => parcel_is(
                    r,
                    agents@,
                    self.root_here(),
                    composed(self.stray_here().path@, text@),
                ),
                _ => r is None,
            },
    {
        match (&self.input.prompt, self.selected_stray()) {
            (Some(text), Some((root, stray))) => address(
                agents,
                root.as_str(),
                compose(stray.path.as_str(), text.as_str()),
            ),
            _ => None,
        }
    }

    /// Close the input line once the composed prompt has been handed over, given
    /// the agents running and how the hand-off went.
    ///
    /// The text is typed into the agent's input but NOT submitted: the user
    /// reads it in place and presses Enter themselves. With nothing selected
    /// there is nowhere to send: closing beats leaving the line open with text
    /// that can never go anywhere.
    pub fn send_prompt(self, agents: &Vec<Agent>, sent: Result<(), SendError>) -> (r: Self)
        ensures
            self.input.prompt is None ==> r == self,
            self.input.prompt is Some && self.spot() is None ==> r == (App {
                input: Input { prompt: None, ..self.input },
                ..self
            }),
            self.input.prompt is Some && self.spot() is Some ==> {
                &&& tells_of(
                    r.view.notice,
                    agents@,
                    self.root_here(),
                    sent,
                    "sent to the agent — press Enter there to run it"@,
                )
                &&& r == (App {
                    view: View { notice: r.view.notice, ..self.view },
                    input: Input { prompt: None, ..self.input },
                    ..self
                })
            },
    {
        if self.input.prompt.is_none() {
            return self;
        }
        let notice = match self.selected_stray() {
            Some((root, _)) => tell(
                agents,
                root.as_str(),
                &sent,
                "sent to the agent — press Enter there to run it".to_owned(),
            ),
            None => {
                return self.cancel_prompt();
            },
        };
        App {
            view: View { notice: Some(notice), ..self.view },
            input: Input { prompt: None, ..self.input },
            ..self
        }
    }
}

} // verus!
