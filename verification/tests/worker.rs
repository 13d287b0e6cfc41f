//! Asking the forge on a timer.

use herdr_strays::forge::worker::{Forge, Update};
use herdr_strays::forge::ForgeStatus;

/// A plausible interval for tests that need one but are not about its length, in
/// milliseconds.
const DEFAULT_INTERVAL: u64 = 120_000;

/// When these rounds are asked for.
const NOW: u64 = 5_000;

/// A forge with a round of so many answers in flight.
fn forge_asking(outstanding: usize) -> Forge {
    Forge {
        generation: 1,
        outstanding,
        last_round: Some(NOW),
        interval: DEFAULT_INTERVAL,
    }
}

#[test]
fn the_first_round_is_due_at_once() {
    let forge = Forge::new(DEFAULT_INTERVAL);
    assert!(forge.is_due(NOW));
}

#[test]
fn a_round_is_not_due_again_until_the_interval_has_passed() {
    let mut forge = Forge::new(60_000);
    forge.ask(0, NOW);
    // An empty round leaves nothing outstanding, so only the clock can be
    // what holds the next one back.
    assert!(!forge.is_due(NOW));
}

#[test]
fn the_interval_eventually_makes_a_round_due() {
    let mut forge = Forge::new(0);
    forge.ask(0, NOW);
    assert!(forge.is_due(NOW));
}

#[test]
fn a_round_still_in_flight_is_never_due() {
    // Otherwise a slow `gh` collects a queued round every interval, and the
    // queue grows for as long as the network stays slow.
    let mut forge = Forge::new(0);
    forge.outstanding = 3;
    forge.last_round = None;
    assert!(!forge.is_due(NOW));
    forge.outstanding = 0;
    assert!(forge.is_due(NOW));
}

#[test]
fn a_dead_worker_ends_the_round_rather_than_hanging_it() {
    let mut forge = forge_asking(2);
    let updates = forge.drain(Vec::new(), true);
    assert!(matches!(updates.as_slice(), [Update::Done { .. }]));
    assert!(!forge.is_asking());
}

#[test]
fn a_dead_worker_only_finishes_the_round_once() {
    // `drain` runs every frame. Re-announcing a finish would keep clearing
    // a status line the reader is trying to read.
    let mut forge = forge_asking(2);
    assert_eq!(forge.drain(Vec::new(), true).len(), 1);
    assert!(forge.drain(Vec::new(), true).is_empty());
}

#[test]
fn answers_from_an_abandoned_round_are_dropped() {
    let mut forge = Forge {
        generation: 2,
        outstanding: 1,
        last_round: Some(NOW),
        interval: DEFAULT_INTERVAL,
    };

    let late = Update::Status {
        root: "/repo".to_string(),
        status: ForgeStatus::default(),
        generation: 1,
    };

    assert!(
        forge.drain(vec![late], false).is_empty(),
        "an answer from round 1 must not reach a UI on round 2"
    );
}

#[test]
fn answers_to_the_round_in_flight_are_handed_on() {
    let mut forge = forge_asking(1);
    let status = Update::Status {
        root: "/repo".to_string(),
        status: ForgeStatus::default(),
        generation: 1,
    };
    let done = Update::Done { generation: 1 };

    assert_eq!(forge.drain(vec![status, done], false).len(), 2);
    assert!(!forge.is_asking());
}
