//! Sending a file and a prompt to a running agent.
//!
//! Herdr already hosts the agents; this module only finds the right one and
//! says what is typed into it. `pane send-text` writes the text into the
//! agent's input without submitting it, and `agent focus` puts the user in
//! front of it so they can read what is about to be sent and press Enter
//! themselves.
//!
//! Not submitting is deliberate. A prompt assembled by a viewer should be seen
//! by the person sending it before it reaches an agent.

use vstd::prelude::*;
use vstd::string::*;

use crate::bytes::{decode, lossy_text};
use crate::discover::{field_in, records, records_in, string_field};
use crate::text::{chars_of, control, is_control, same, starts_with, texts, trim, trimmed};

pub mod handing;

verus! {

/// An agent herdr has running.
#[derive(Debug, PartialEq, Eq)]
pub struct Agent {
    pub pane_id: String,
    pub workspace_id: String,
    /// The agent's working directory, used to match it to a repository.
    pub cwd: String,
}

/// An agent, with its texts as characters.
pub struct AgentView {
    pub pane_id: Seq<char>,
    pub workspace_id: Seq<char>,
    pub cwd: Seq<char>,
}

impl View for Agent {
    type V = AgentView;

    open spec fn view(&self) -> AgentView {
        AgentView { pane_id: self.pane_id@, workspace_id: self.workspace_id@, cwd: self.cwd@ }
    }
}

impl Clone for Agent {
    fn clone(&self) -> (r: Self)
        ensures
            r == *self,
    {
        Agent {
            pane_id: self.pane_id.clone(),
            workspace_id: self.workspace_id.clone(),
            cwd: self.cwd.clone(),
        }
    }
}

/// The agents of a list, with their texts as characters.
pub open spec fn agent_views(v: Seq<Agent>) -> Seq<AgentView> {
    v.map_values(|a: Agent| a@)
}

/// What an agent is doing.
#[derive(Debug, PartialEq, Eq)]
pub enum AgentStatus {
    Working,
    Idle,
    /// A state that has no name here, as herdr called it.
    Unknown(String),
}

impl Clone for AgentStatus {
    fn clone(&self) -> (r: Self)
        ensures
            r == *self,
    {
        match self {
            AgentStatus::Working => AgentStatus::Working,
            AgentStatus::Idle => AgentStatus::Idle,
            AgentStatus::Unknown(s) => AgentStatus::Unknown(s.clone()),
        }
    }
}

impl AgentStatus {
    /// What herdr calls the state.
    pub open spec fn word(&self) -> Seq<char> {
        match self {
            AgentStatus::Working => "working"@,
            AgentStatus::Idle => "idle"@,
            AgentStatus::Unknown(s) => s@,
        }
    }

    /// What herdr calls the state.
    pub fn label(&self) -> (r: &str)
        ensures
            r@ == self.word(),
    {
        match self {
            AgentStatus::Working => "working",
            AgentStatus::Idle => "idle",
            AgentStatus::Unknown(s) => s.as_str(),
        }
    }

    /// The state that herdr's word stands for.
    ///
    /// A word without a name here is kept as it is: flattening it to "idle"
    /// would claim an agent is waiting when herdr did not say so.
    pub fn parse(word: String) -> (r: Self)
        ensures
            r.word() == word@,
            r is Working <==> word@ == "working"@,
            r is Idle <==> word@ == "idle"@ && word@ != "working"@,
    {
        if same(word.as_str(), "working") {
            AgentStatus::Working
        } else if same(word.as_str(), "idle") {
            AgentStatus::Idle
        } else {
            AgentStatus::Unknown(word)
        }
    }
}

/// Why nothing was sent.
#[derive(Debug, PartialEq, Eq)]
pub enum SendError {
    /// No agent is running in the repository the file belongs to.
    NoAgent,
    /// The herdr CLI could not be reached or refused the request.
    Herdr(String),
}

impl SendError {
    /// The error in words.
    pub open spec fn text(&self) -> Seq<char> {
        match self {
            SendError::NoAgent => "no agent running in this project"@,
            SendError::Herdr(message) => "herdr refused: "@ + message@,
        }
    }

    /// The error in words.
    pub fn message(&self) -> (r: String)
        ensures
            r@ == self.text(),
    {
        match self {
            SendError::NoAgent => "no agent running in this project".to_owned(),
            SendError::Herdr(message) => "herdr refused: ".to_owned().concat(message.as_str()),
        }
    }
}

/// A text in which nothing acts on the receiving terminal: every control
/// character is a space.
pub open spec fn sanitized(text: Seq<char>) -> Seq<char> {
    text.map_values(
        |c: char|
            if is_control(c) {
                ' '
            } else {
                c
            },
    )
}

/// Replace anything that would act on the receiving terminal rather than appear
/// in it: C0 controls (newline and ESC among them), DEL, and the C1 range.
///
/// A space rather than nothing: `a\nb` becoming `ab` would silently invent a
/// different filename, while `a b` is visibly odd.
pub fn sanitize(text: &str) -> (r: String)
    ensures
        r@ == sanitized(text@),
{
    let cs = chars_of(text);
    let mut out = String::new();
    for i in 0..cs.len()
        invariant
            cs@ == text@,
            out@ =~= sanitized(text@).take(i as int),
    {
        if control(cs[i]) {
            out.push(' ');
        } else {
            out.push(cs[i]);
        }
    }
    assert(sanitized(text@).take(text@.len() as int) =~= sanitized(text@));
    out
}

/// The text handed to the agent.
pub open spec fn composed(path: Seq<char>, prompt: Seq<char>) -> Seq<char> {
    let words = trimmed(sanitized(prompt));
    if words.len() == 0 {
        sanitized(path)
    } else {
        sanitized(path) + ": "@ + words
    }
}

/// Compose the text handed to the agent.
///
/// The path leads so the agent knows what is being talked about, and the
/// user's own words follow. Both are data, not instructions to this program:
/// nothing here is interpreted, escaped, or run.
///
/// # Why control characters are stripped
///
/// This text is typed into another process's input. A newline there reads as a
/// submitted line, and the whole point of the hand-off is that the person sees
/// the prompt before it is sent — so a path from someone else's branch must not
/// be able to press Enter on their behalf. ANSI escape sequences go for the
/// same reason: the agent's input is rendered in a terminal, and a path is not
/// entitled to move the cursor or repaint the screen.
///
/// Shell metacharacters are deliberately left alone. They reach no shell, and
/// mangling them would corrupt a legitimate prompt about a file named `$(x)`.
pub fn compose(path: &str, prompt: &str) -> (r: String)
    ensures
        r@ == composed(path@, prompt@),
{
    let path = sanitize(path);
    let prompt = sanitize(prompt);
    let words = trim(prompt.as_str());
    if words.is_empty() {
        path
    } else {
        path.concat(": ").concat(words.as_str())
    }
}

/// Whether no character of a text acts on a terminal.
pub open spec fn harmless(text: Seq<char>) -> bool {
    forall|i: int| 0 <= i < text.len() ==> !is_control(#[trigger] text[i])
}

proof fn lemma_trim_front_harmless(s: Seq<char>, p: spec_fn(char) -> bool)
    requires
        harmless(s),
    ensures
        harmless(crate::text::trim_front(s, p)),
    decreases s.len(),
{
    if s.len() > 0 && p(s[0]) {
        assert(harmless(s.skip(1))) by {
            assert forall|i: int| 0 <= i < s.skip(1).len() implies !is_control(
                #[trigger] s.skip(1)[i],
            ) by {
                assert(!is_control(s[i + 1]));
            }
        }
        lemma_trim_front_harmless(s.skip(1), p);
    }
}

proof fn lemma_trim_back_harmless(s: Seq<char>, p: spec_fn(char) -> bool)
    requires
        harmless(s),
    ensures
        harmless(crate::text::trim_back(s, p)),
    decreases s.len(),
{
    if s.len() > 0 && p(s.last()) {
        assert(harmless(s.drop_last())) by {
            assert forall|i: int| 0 <= i < s.drop_last().len() implies !is_control(
                #[trigger] s.drop_last()[i],
            ) by {
                assert(!is_control(s[i]));
            }
        }
        lemma_trim_back_harmless(s.drop_last(), p);
    }
}

/// Nothing that is handed to an agent can press Enter or repaint its terminal:
/// whatever the path and the prompt are, the text holds no control character.
pub proof fn composed_text_is_harmless(path: Seq<char>, prompt: Seq<char>)
    ensures
        harmless(composed(path, prompt)),
{
    assert(harmless(sanitized(path)));
    assert(harmless(sanitized(prompt)));
    let p = |c: char| crate::text::is_space(c);
    lemma_trim_front_harmless(sanitized(prompt), p);
    lemma_trim_back_harmless(crate::text::trim_front(sanitized(prompt), p), p);
    reveal_strlit(": ");
    let words = trimmed(sanitized(prompt));
    let r = composed(path, prompt);
    assert forall|i: int| 0 <= i < r.len() implies !is_control(#[trigger] r[i]) by {
        if i < sanitized(path).len() {
            assert(r[i] == sanitized(path)[i]);
        } else if i >= sanitized(path).len() + 2 {
            assert(r[i] == words[i - sanitized(path).len() - 2]);
        } else {
            assert(r[i] == ": "@[i - sanitized(path).len()]);
        }
    }
}

/// Whether a directory is a repository or lies in it.
pub open spec fn sits_in(cwd: Seq<char>, repo: Seq<char>) -> bool {
    cwd == repo || (repo + seq!['/']).is_prefix_of(cwd)
}

/// The first agent that sits in a repository, by its place in the list.
pub open spec fn picked(agents: Seq<AgentView>, repo: Seq<char>) -> Option<int>
    decreases agents.len(),
{
    if agents.len() == 0 {
        None
    } else {
        match picked(agents.drop_last(), repo) {
            Some(i) => Some(i),
            None => if sits_in(agents.last().cwd, repo) {
                Some(agents.len() - 1)
            } else {
                None
            },
        }
    }
}

/// The place in the list of the agent to send to.
pub fn pick_at(agents: &Vec<Agent>, repo: &str) -> (r: Option<usize>)
    ensures
        match r {
            Some(i) => picked(agent_views(agents@), repo@) == Some(i as int) && i < agents@.len(),
            None => picked(agent_views(agents@), repo@) is None,
        },
{
    let mut below = repo.to_owned();
    below.push('/');
    assert(below@ =~= repo@ + seq!['/']);
    let ghost all = agent_views(agents@);
    assert(all.take(0) =~= Seq::<AgentView>::empty());
    for i in 0..agents.len()
        invariant
            all == agent_views(agents@),
            below@ == repo@ + seq!['/'],
            picked(all.take(i as int), repo@) is None,
    {
        proof {
            assert(all.take(i + 1).drop_last() =~= all.take(i as int));
            assert(all.take(i + 1).last() == agents@[i as int]@);
        }
        if same(agents[i].cwd.as_str(), repo) || starts_with(agents[i].cwd.as_str(), below.as_str()) {
            proof {
                lemma_picked_early(all, repo@, i + 1);
            }
            return Some(i);
        }
    }
    assert(all.take(all.len() as int) =~= all);
    None
}

proof fn lemma_picked_early(agents: Seq<AgentView>, repo: Seq<char>, n: int)
    requires
        0 <= n <= agents.len(),
        picked(agents.take(n), repo) is Some,
    ensures
        picked(agents, repo) == picked(agents.take(n), repo),
    decreases agents.len(),
{
    if n < agents.len() {
        assert(agents.drop_last().take(n) =~= agents.take(n));
        lemma_picked_early(agents.drop_last(), repo, n);
    } else {
        assert(agents.take(n) =~= agents);
    }
}

/// Find the agent to send to, one whose cwd is inside `repo`.
///
/// An agent in the same repository is almost always the one the user means. A
/// tie is broken by list order, which is herdr's own.
pub fn pick<'a>(agents: &'a Vec<Agent>, repo: &str) -> (r: Option<&'a Agent>)
    ensures
        match r {
            Some(a) => {
                &&& picked(agent_views(agents@), repo@) matches Some(i)
                &&& 0 <= i < agents@.len()
                &&& *a == agents@[i]
            },
            None => picked(agent_views(agents@), repo@) is None,
        },
{
    match pick_at(agents, repo) {
        Some(i) => Some(&agents[i]),
        None => None,
    }
}

/// What a record says of an agent. Only real agent panes carry an `agent`
/// field; a plain shell does not, and must not be typed into.
pub open spec fn agent_in(record: Seq<char>) -> Option<AgentView> {
    match (field_in(record, "agent"@), field_in(record, "pane_id"@)) {
        (Some(_), Some(pane_id)) => Some(
            AgentView {
                pane_id,
                workspace_id: or_empty(field_in(record, "workspace_id"@)),
                cwd: or_empty(field_in(record, "cwd"@)),
            },
        ),
        _ => None,
    }
}

/// What an optional text is, or nothing.
pub open spec fn or_empty(o: Option<Seq<char>>) -> Seq<char> {
    match o {
        Some(s) => s,
        None => Seq::empty(),
    }
}

fn field_or_empty(record: &str, key: &str) -> (r: String)
    ensures
        r@ == or_empty(field_in(record@, key@)),
{
    match string_field(record, key) {
        Some(s) => s,
        None => String::new(),
    }
}

/// What the records say of agents.
pub open spec fn agents_in(records: Seq<Seq<char>>) -> Seq<AgentView>
    decreases records.len(),
{
    if records.len() == 0 {
        Seq::empty()
    } else {
        match agent_in(records.last()) {
            Some(agent) => agents_in(records.drop_last()).push(agent),
            None => agents_in(records.drop_last()),
        }
    }
}

/// What the records say that their agents are doing.
pub open spec fn status_words(records: Seq<Seq<char>>) -> Seq<Seq<char>>
    decreases records.len(),
{
    if records.len() == 0 {
        Seq::empty()
    } else {
        match agent_in(records.last()) {
            Some(_) => status_words(records.drop_last()).push(
                or_empty(field_in(records.last(), "agent_status"@)),
            ),
            None => status_words(records.drop_last()),
        }
    }
}

/// The words of the states in turn.
pub open spec fn words_of_statuses(v: Seq<AgentStatus>) -> Seq<Seq<char>> {
    v.map_values(|s: AgentStatus| s.word())
}

/// Extract agents from an `agent list` response.
///
/// A handful of string fields out of an undocumented, version-dependent shape,
/// where an unrecognised payload must degrade to "no agents" rather than fail.
pub fn parse_agents(json: &str) -> (r: Vec<Agent>)
    ensures
        agent_views(r@) == agents_in(records_in(json@)),
{
    let all = records(json);
    let ghost rs = records_in(json@);
    let mut out: Vec<Agent> = Vec::new();
    assert(rs.take(0) =~= Seq::<Seq<char>>::empty());
    assert(agent_views(out@) =~= Seq::<AgentView>::empty());
    for i in 0..all.len()
        invariant
            texts(all@) == rs,
            agent_views(out@) =~= agents_in(rs.take(i as int)),
    {
        proof {
            assert(rs.take(i + 1).drop_last() =~= rs.take(i as int));
            assert(rs.take(i + 1).last() == all@[i as int]@);
        }
        let ghost before = agent_views(out@);
        let record = all[i].as_str();
        if string_field(record, "agent").is_some() {
            if let Some(pane_id) = string_field(record, "pane_id") {
                let agent = Agent {
                    pane_id,
                    workspace_id: field_or_empty(record, "workspace_id"),
                    cwd: field_or_empty(record, "cwd"),
                };
                out.push(agent);
                assert(agent_views(out@) =~= before.push(agent@));
            }
        }
    }
    assert(texts(all@).len() == all@.len());
    assert(rs.take(rs.len() as int) =~= rs);
    out
}

/// What the agents of an `agent list` response are doing, one state for each
/// agent that [`parse_agents`] finds, in the same order.
pub fn parse_statuses(json: &str) -> (r: Vec<AgentStatus>)
    ensures
        words_of_statuses(r@) == status_words(records_in(json@)),
        r@.len() == agents_in(records_in(json@)).len(),
{
    let all = records(json);
    let ghost rs = records_in(json@);
    let mut out: Vec<AgentStatus> = Vec::new();
    assert(rs.take(0) =~= Seq::<Seq<char>>::empty());
    assert(words_of_statuses(out@) =~= Seq::<Seq<char>>::empty());
    for i in 0..all.len()
        invariant
            texts(all@) == rs,
            words_of_statuses(out@) =~= status_words(rs.take(i as int)),
            out@.len() == agents_in(rs.take(i as int)).len(),
    {
        proof {
            assert(rs.take(i + 1).drop_last() =~= rs.take(i as int));
            assert(rs.take(i + 1).last() == all@[i as int]@);
        }
        let ghost before = words_of_statuses(out@);
        let record = all[i].as_str();
        if string_field(record, "agent").is_some() && string_field(record, "pane_id").is_some() {
            let status = AgentStatus::parse(field_or_empty(record, "agent_status"));
            out.push(status);
            assert(words_of_statuses(out@) =~= before.push(status.word()));
        }
    }
    assert(texts(all@).len() == all@.len());
    assert(rs.take(rs.len() as int) =~= rs);
    out
}

/// The agents herdr currently has running, given what `herdr agent list`
/// printed. Nothing where it could not be run or failed.
pub fn list(printed: Option<&[u8]>) -> (r: Vec<Agent>)
    ensures
        agent_views(r@) == (match printed {
            Some(bytes) => agents_in(records_in(lossy_text(bytes@))),
            None => Seq::empty(),
        }),
{
    match printed {
        Some(bytes) => parse_agents(decode(bytes).as_str()),
        None => {
            let none: Vec<Agent> = Vec::new();
            assert(agent_views(none@) =~= Seq::<AgentView>::empty());
            none
        },
    }
}

/// A text to be typed into an agent's input.
#[derive(Debug, PartialEq, Eq)]
pub struct Parcel {
    pub agent: Agent,
    pub text: String,
}

impl Parcel {
    /// What herdr is asked: to type the text into the agent's input, without
    /// submitting it. One argument each and never a shell: the text holds the
    /// user's prose and a repository path, and neither is ours to interpret.
    pub fn arguments(&self) -> (r: Vec<String>)
        ensures
            texts(r@) == seq!["pane"@, "send-text"@, self.agent.pane_id@, self.text@],
    {
        let r = vec![
            "pane".to_owned(),
            "send-text".to_owned(),
            self.agent.pane_id.clone(),
            self.text.clone(),
        ];
        assert(texts(r@) =~= seq!["pane"@, "send-text"@, self.agent.pane_id@, self.text@]);
        r
    }

    /// How the agent is brought into view once the text is there.
    pub fn focus_arguments(&self) -> (r: Vec<String>)
        ensures
            texts(r@) == seq!["agent"@, "focus"@, self.agent.pane_id@],
    {
        let r = vec!["agent".to_owned(), "focus".to_owned(), self.agent.pane_id.clone()];
        assert(texts(r@) =~= seq!["agent"@, "focus"@, self.agent.pane_id@]);
        r
    }
}

/// How a hand-off went, given how running herdr went: why it could not be run,
/// or whether it succeeded and what it complained of.
pub fn send(ran: Result<(bool, Vec<u8>), String>) -> (r: Result<(), SendError>)
    ensures
        match ran {
            Err(why) => r == Err::<(), SendError>(SendError::Herdr(why)),
            Ok((true, _)) => r is Ok,
            Ok((false, stderr)) => r matches Err(SendError::Herdr(said)) && said@ == trimmed(
                lossy_text(stderr@),
            ),
        },
{
    match ran {
        Err(why) => Err(SendError::Herdr(why)),
        Ok((success, stderr)) => if success {
            Ok(())
        } else {
            Err(SendError::Herdr(trim(decode(stderr.as_slice()).as_str())))
        },
    }
}

/// The text for an agent in a repository, when there is one there.
pub open spec fn parcel_is(
    r: Option<Parcel>,
    agents: Seq<Agent>,
    repo: Seq<char>,
    text: Seq<char>,
) -> bool {
    match (r, picked(agent_views(agents), repo)) {
        (Some(parcel), Some(i)) => 0 <= i < agents.len() && parcel.agent == agents[i]
            && parcel.text@ == text,
        (None, None) => true,
        _ => false,
    }
}

/// Address a text to the agent in a repository, when there is one there.
pub fn address(agents: &Vec<Agent>, repo: &str, text: String) -> (r: Option<Parcel>)
    ensures
        parcel_is(r, agents@, repo@, text@),
{
    match pick(agents, repo) {
        Some(agent) => Some(Parcel { agent: agent.clone(), text }),
        None => None,
    }
}

} // verus!
