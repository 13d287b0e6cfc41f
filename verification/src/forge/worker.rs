//! When the forge is asked, and which of its answers count.
//!
//! # Why this is not the scanner's business
//!
//! A git call is tens of milliseconds against local disk; a forge call crosses
//! a network. Queued behind the same worker, one slow `gh` would hold up every
//! repository's stray list behind it — the list would stop updating because
//! GitHub was busy. So the forge has rounds of its own, and neither side can
//! stall the other.
//!
//! # Why the answers are allowed to be old
//!
//! A scan is re-run whenever the worktree changes, because the answer is stale
//! the moment a file is written. A forge answer is not like that: CI takes
//! minutes, and asking again on every keystroke would spend the reader's rate
//! limit to redraw the same character. So this is asked on a timer, and between
//! rounds the last answer stands.

use vstd::prelude::*;

use crate::discover::Project;
use crate::forge::{ForgeStatus, Host};

verus! {

/// Something the worker has finished and the UI should fold in.
#[derive(Debug)]
pub enum Update {
    /// What one forge said about one repository.
    Status { root: String, status: ForgeStatus, generation: u64 },
    /// Every repository in this round has now been reported.
    Done { generation: u64 },
}

impl Update {
    /// The round that an answer belongs to.
    pub open spec fn round(&self) -> u64 {
        match self {
            Update::Status { generation, .. } => *generation,
            Update::Done { generation } => *generation,
        }
    }
}

/// What the event loop hands over when it wants a round.
///
/// A named type rather than a bare list so the reason a round is due stays with
/// the request: see [`Forge::is_due`].
#[derive(Debug, PartialEq, Eq)]
pub struct ForgeRequest {
    pub projects: Vec<Project>,
}

/// The state of asking the forge.
///
/// Instants and intervals are in milliseconds, on a clock that the caller keeps.
#[derive(Debug, Clone, Copy, PartialEq, Eq, Structural)]
pub struct Forge {
    /// Which round is current. Answers from an older one are dropped on
    /// arrival: a round asked for while the previous is in flight would
    /// otherwise be overwritten by it.
    pub generation: u64,
    /// How many repositories of the current round have not yet answered.
    pub outstanding: usize,
    /// When the last round was asked for, or `None` if none ever was.
    ///
    /// `None` rather than a zero instant so the first round is due immediately
    /// without the interval having to be subtracted from a clock that may not
    /// go back that far.
    pub last_round: Option<u64>,
    /// How long between rounds.
    pub interval: u64,
}

/// How many of the answers are about a repository.
pub open spec fn statuses(updates: Seq<Update>) -> nat
    decreases updates.len(),
{
    if updates.len() == 0 {
        0
    } else {
        statuses(updates.drop_last()) + if updates.last() is Status {
            1nat
        } else {
            0nat
        }
    }
}

/// How many repositories are still to answer after some have.
pub open spec fn left_after(outstanding: usize, updates: Seq<Update>) -> usize {
    if statuses(updates) >= outstanding {
        0
    } else {
        (outstanding - statuses(updates)) as usize
    }
}

/// The state after a drain, and what the drain hands over.
pub open spec fn drained(forge: Forge, arrived: Seq<Update>, gone: bool) -> (Forge, Seq<Update>) {
    let fresh = arrived.filter(|u: Update| u.round() == forge.generation);
    let left = left_after(forge.outstanding, fresh);
    if gone && left > 0 {
        (
            Forge { outstanding: 0, ..forge },
            fresh.push(Update::Done { generation: forge.generation }),
        )
    } else {
        (Forge { outstanding: left, ..forge }, fresh)
    }
}

impl Forge {
    /// The state before the first round.
    pub fn new(interval: u64) -> (r: Self)
        ensures
            r == (Forge { generation: 0, outstanding: 0, last_round: None, interval }),
    {
        Forge { generation: 0, outstanding: 0, last_round: None, interval }
    }

    /// Whether enough time has passed to ask again.
    ///
    /// A round still in flight is never due. Otherwise a slow `gh` would have a
    /// second round queued behind it every interval, and the queue would grow
    /// for as long as the network stayed slow.
    pub fn is_due(&self, now: u64) -> (r: bool)
        ensures
            r == (self.outstanding == 0 && (match self.last_round {
                None => true,
                Some(last) => self.interval == 0 || now - last >= self.interval,
            })),
    {
        if self.outstanding > 0 {
            return false;
        }
        match self.last_round {
            None => true,
            Some(last) => self.interval == 0 || (now >= last && now - last >= self.interval),
        }
    }

    /// Begin a round about `projects` repositories.
    ///
    /// Returns the generation the answers will carry.
    pub fn ask(&mut self, projects: usize, now: u64) -> (r: u64)
        requires
            old(self).generation < u64::MAX,
        ensures
            r == old(self).generation + 1,
            *final(self) == (Forge {
                generation: r,
                outstanding: projects,
                last_round: Some(now),
                interval: old(self).interval,
            }),
    {
        self.generation = self.generation + 1;
        self.outstanding = projects;
        self.last_round = Some(now);
        self.generation
    }

    /// Take what the worker has finished, given whether it is gone.
    ///
    /// Stale rounds are discarded here rather than handed to the UI to filter.
    /// A worker that is gone ends the round with a `Done` of its own: a dead
    /// worker sends none, and a caller waiting for one would wait forever.
    pub fn drain(&mut self, arrived: Vec<Update>, gone: bool) -> (r: Vec<Update>)
        ensures
            (*final(self), r@) == drained(*old(self), arrived@, gone),
    {
        let ghost p = |u: Update| u.round() == old(self).generation;
        let ghost all = arrived@;
        let mut fresh: Vec<Update> = Vec::new();
        proof {
            reveal(Seq::filter);
            assert(all.take(0).filter(p) =~= Seq::<Update>::empty());
        }
        for update in it: arrived
            invariant
                it.seq() == all,
                p == (|u: Update| u.round() == old(self).generation),
                fresh@ =~= all.take(it.index() as int).filter(p),
                *self == (Forge {
                    outstanding: left_after(old(self).outstanding, fresh@),
                    ..*old(self)
                }),
        {
            let ghost n = it.index() as int;
            proof {
                assert(all.take(n + 1) =~= all.take(n).push(update));
                all.take(n).lemma_filter_push(update, p);
                assert(fresh@.push(update).drop_last() =~= fresh@);
            }
            let round: u64 = match &update {
                Update::Status { generation, .. } => *generation,
                Update::Done { generation } => *generation,
            };
            if round == self.generation {
                if let Update::Status { .. } = &update {
                    if self.outstanding > 0 {
                        self.outstanding = self.outstanding - 1;
                    }
                }
                fresh.push(update);
            }
        }
        assert(all.take(all.len() as int) =~= all);
        if gone && self.outstanding > 0 {
            self.outstanding = 0;
            fresh.push(Update::Done { generation: self.generation });
        }
        fresh
    }

    /// Whether any repository of the current round is still being asked about.
    pub fn is_asking(&self) -> (r: bool)
        ensures
            r == (self.outstanding > 0),
    {
        self.outstanding > 0
    }
}

/// A worker that is gone finishes a round once: after a drain of it nothing is
/// outstanding, and the next drain of it hands over nothing.
pub proof fn a_dead_worker_ends_a_round_once(forge: Forge, arrived: Seq<Update>)
    ensures
        drained(forge, arrived, true).0.outstanding == 0,
        drained(drained(forge, arrived, true).0, Seq::empty(), true).1.len() == 0,
{
    reveal(Seq::filter);
}

/// An answer of another round is never handed over.
pub proof fn stale_answers_are_dropped(forge: Forge, arrived: Seq<Update>, gone: bool)
    ensures
        forall|i: int|
            0 <= i < drained(forge, arrived, gone).1.len() ==> (#[trigger] drained(
                forge,
                arrived,
                gone,
            ).1[i]).round() == forge.generation,
{
    let p = |u: Update| u.round() == forge.generation;
    let fresh = arrived.filter(p);
    assert forall|i: int| 0 <= i < drained(forge, arrived, gone).1.len() implies (
    #[trigger] drained(forge, arrived, gone).1[i]).round() == forge.generation by {
        if i < fresh.len() {
            arrived.lemma_filter_pred(p, i);
        }
    }
}

/// What one repository's forge says, given which forge hosts it and what GitHub
/// answered where it was asked.
///
/// The host check comes first, so a repository on a forge nobody wrote support
/// for says that nothing is known, whatever an answer would have said.
pub fn ask_one(host: Host, answer: ForgeStatus) -> (r: ForgeStatus)
    ensures
        host is GitHub ==> r == answer,
        host is Other ==> r.ci == crate::forge::Ci::Unknown && r.open_prs is None && r.review is None
            && r.comments@.len() == 0 && r.tests == crate::forge::Tests::Unknown,
{
    match host {
        Host::GitHub => answer,
        Host::Other => ForgeStatus::default(),
    }
}

} // verus!
