//! Who is handed what.

use vstd::prelude::*;
use vstd::string::*;

use crate::agent::{
    agent_in, agents_in, composed, harmless, picked, sanitized, sits_in, status_words, AgentView,
};
use crate::delegate::{instruction_text, ready, Action, Scope};
use crate::discover::field_in;
use crate::text::reading::{
    blank, is_trim, trimming_leaves_the_middle, trimming_takes_only_white_space,
};
use crate::text::is_control;

verus! {

/// The agent that a text goes to is the first that sits in the repository, and
/// there is none only where none sits there.
pub proof fn the_first_agent_there_is_picked(agents: Seq<AgentView>, repo: Seq<char>)
    ensures
        match picked(agents, repo) {
            Some(i) => 0 <= i < agents.len() && sits_in(agents[i].cwd, repo) && forall|j: int|
                0 <= j < i ==> !sits_in((#[trigger] agents[j]).cwd, repo),
            None => forall|j: int|
                0 <= j < agents.len() ==> !sits_in((#[trigger] agents[j]).cwd, repo),
        },
    decreases agents.len(),
{
    if agents.len() > 0 {
        let front = agents.drop_last();
        the_first_agent_there_is_picked(front, repo);
        match picked(agents, repo) {
            Some(i) => {
                assert forall|j: int| 0 <= j < i implies !sits_in(
                    (#[trigger] agents[j]).cwd,
                    repo,
                ) by {
                    assert(agents[j] == front[j]);
                }
                if i < front.len() {
                    assert(agents[i] == front[i]);
                }
            },
            None => {
                assert forall|j: int| 0 <= j < agents.len() implies !sits_in(
                    (#[trigger] agents[j]).cwd,
                    repo,
                ) by {
                    if j < front.len() {
                        assert(agents[j] == front[j]);
                    }
                }
            },
        }
    }
}

/// An agent sits in a repository where its directory is the repository's or lies
/// below it; another that only starts with the same letters does not.
pub proof fn sitting_in_a_repository_is_being_below_it(
    repo: Seq<char>,
    below: Seq<char>,
    c: char,
)
    ensures
        sits_in(repo, repo),
        sits_in(repo.push('/') + below, repo),
        c != '/' ==> !sits_in(repo.push(c) + below, repo),
        forall|cwd: Seq<char>| #[trigger] sits_in(cwd, repo) ==> repo.is_prefix_of(cwd),
{
    let lead = repo + seq!['/'];
    let inside = repo.push('/') + below;
    assert(inside.subrange(0, lead.len() as int) =~= lead);
    let beside = repo.push(c) + below;
    if c != '/' {
        assert(beside.len() > repo.len());
        if lead.is_prefix_of(beside) {
            assert(beside.subrange(0, lead.len() as int)[repo.len() as int] == beside[repo.len() as int]);
        }
    }
    assert forall|cwd: Seq<char>| #[trigger] sits_in(cwd, repo) implies repo.is_prefix_of(cwd) by {
        if cwd == repo {
            assert(cwd.subrange(0, repo.len() as int) =~= repo);
        } else {
            assert(cwd.subrange(0, repo.len() as int) =~= cwd.subrange(
                0,
                lead.len() as int,
            ).take(repo.len() as int));
            assert(lead.take(repo.len() as int) =~= repo);
        }
    }
}

/// What is handed over is the path and the words, as they are: where nothing in
/// them acts on a terminal, nothing in them is changed but the white space around
/// the words, and every character that does act is a space.
pub proof fn the_words_arrive_as_they_are(
    path: Seq<char>,
    before: Seq<char>,
    words: Seq<char>,
    after: Seq<char>,
)
    requires
        harmless(path),
        harmless(before + words + after),
        blank(before),
        blank(after),
        is_trim(words),
    ensures
        words.len() > 0 ==> composed(path, before + words + after) == path + ": "@ + words,
        words.len() == 0 ==> composed(path, before + words + after) == path,
{
    let prompt = before + words + after;
    lemma_unchanged(path);
    lemma_unchanged(prompt);
    trimming_takes_only_white_space(before, words, after);
}

proof fn lemma_unchanged(text: Seq<char>)
    requires
        harmless(text),
    ensures
        sanitized(text) == text,
{
    assert forall|i: int| 0 <= i < text.len() implies sanitized(text)[i] == text[i] by {
        assert(!is_control(text[i]));
    }
    assert(sanitized(text) =~= text);
}

/// Making a text harmless keeps its length and every character that was.
pub proof fn what_is_harmless_is_kept(text: Seq<char>, i: int)
    requires
        0 <= i < text.len(),
    ensures
        sanitized(text).len() == text.len(),
        !is_control(text[i]) ==> sanitized(text)[i] == text[i],
        is_control(text[i]) ==> sanitized(text)[i] == ' ',
{
}

/// Every record that names an agent and its pane is an agent, and no other: a
/// plain shell is not. Records one after another give the agents of each in turn,
/// and what each is doing beside it.
pub proof fn every_record_of_an_agent_is_one(
    a: Seq<Seq<char>>,
    b: Seq<Seq<char>>,
    record: Seq<char>,
)
    ensures
        agents_in(Seq::empty()).len() == 0,
        match (field_in(record, "agent"@), field_in(record, "pane_id"@)) {
            (Some(_), Some(pane)) => {
                &&& agents_in(seq![record]).len() == 1
                &&& agents_in(seq![record])[0].pane_id == pane
                &&& field_in(record, "cwd"@) matches Some(cwd) ==> agents_in(seq![record])[0].cwd
                    == cwd
                &&& field_in(record, "workspace_id"@) matches Some(id) ==> agents_in(
                    seq![record],
                )[0].workspace_id == id
                &&& field_in(record, "agent_status"@) matches Some(status) ==> status_words(
                    seq![record],
                ) == seq![status]
            },
            _ => agents_in(seq![record]).len() == 0 && status_words(seq![record]).len() == 0,
        },
        agents_in(a + b) == agents_in(a) + agents_in(b),
        status_words(a + b) == status_words(a) + status_words(b),
        status_words(a).len() == agents_in(a).len(),
    decreases a.len() + b.len(),
{
    assert(seq![record].drop_last() =~= Seq::<Seq<char>>::empty());
    assert(agents_in(seq![record].drop_last()) =~= Seq::<AgentView>::empty());
    assert(status_words(seq![record].drop_last()) =~= Seq::<Seq<char>>::empty());
    assert(seq![record].last() == record);
    if let Some(status) = field_in(record, "agent_status"@) {
        if agent_in(record) is Some {
            assert(status_words(seq![record]) =~= seq![status]);
        }
    }
    if a.len() > 0 {
        every_record_of_an_agent_is_one(a.drop_last(), Seq::empty(), record);
    }
    if b.len() == 0 {
        assert(a + b =~= a);
        assert(agents_in(a + b) =~= agents_in(a) + agents_in(b));
        assert(status_words(a + b) =~= status_words(a) + status_words(b));
    } else {
        assert((a + b).drop_last() =~= a + b.drop_last());
        assert((a + b).last() == b.last());
        every_record_of_an_agent_is_one(a, b.drop_last(), record);
        assert(agents_in(a + b) =~= agents_in(a) + agents_in(b));
        assert(status_words(a + b) =~= status_words(a) + status_words(b));
    }
}

/// What an action is called where it is asked for.
pub open spec fn verb(action: Action) -> Seq<char> {
    match action {
        Action::Commit { .. } => "commit"@,
        Action::Stage => "stage"@,
        Action::Unstage => "unstage"@,
        Action::Stash { .. } => "stash"@,
    }
}

/// The message that goes with an action, where one does.
pub open spec fn message_of(action: Action) -> Option<Seq<char>> {
    match action {
        Action::Commit { message } => Some(message@),
        Action::Stash { message } => if blank(message@) {
            None
        } else {
            Some(message@)
        },
        Action::Stage => None,
        Action::Unstage => None,
    }
}

/// What an action applies to, in words.
pub open spec fn target(scope: Scope) -> Seq<char> {
    match scope {
        Scope::File(path) => path@,
        Scope::Everything => "everything that has changed"@,
    }
}

/// An instruction asks for the action by its name, names what it applies to, and
/// ends with the message word for word where there is one.
pub proof fn an_instruction_says_what_was_asked(action: Action, scope: Scope)
    ensures
        instruction_text(action, scope) == "Please "@ + verb(action) + " "@ + target(scope) + (
        match message_of(action) {
            Some(message) => " with the message: "@ + message,
            None => Seq::empty(),
        }),
        !ready(action) <==> (action matches Action::Commit { message } && blank(message@)),
{
    reveal_strlit("Please ");
    reveal_strlit("commit");
    reveal_strlit("stage");
    reveal_strlit("unstage");
    reveal_strlit("stash");
    reveal_strlit(" ");
    reveal_strlit("Please commit ");
    reveal_strlit("Please stage ");
    reveal_strlit("Please unstage ");
    reveal_strlit("Please stash ");
    assert("Please "@ + "commit"@ + " "@ =~= "Please commit "@);
    assert("Please "@ + "stage"@ + " "@ =~= "Please stage "@);
    assert("Please "@ + "unstage"@ + " "@ =~= "Please unstage "@);
    assert("Please "@ + "stash"@ + " "@ =~= "Please stash "@);
    match action {
        Action::Commit { message } => {
            trimming_leaves_the_middle(message@);
        },
        Action::Stash { message } => {
            trimming_leaves_the_middle(message@);
        },
        _ => {},
    }
    assert(instruction_text(action, scope) =~= "Please "@ + verb(action) + " "@ + target(scope) + (
    match message_of(action) {
        Some(message) => " with the message: "@ + message,
        None => Seq::empty(),
    }));
}

} // verus!
