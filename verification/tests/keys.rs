//! Which key does what, and how a config file says so.

use herdr_strays::config::keys::{spell, Chord, Key, Modifiers};
use herdr_strays::config::{Action, Bindings, KeyBinding};

#[test]
fn every_action_survives_a_round_trip_through_its_name() {
    // The name is what a config file says and what an error message
    // repeats back. A variant whose name did not parse would be one a
    // reader could never bind.
    for action in Action::ALL {
        assert_eq!(Action::parse(action.name()), Some(action), "{action:?}");
    }
}

#[test]
fn no_two_actions_share_a_name() {
    let mut names: Vec<&str> = Action::ALL.iter().map(|a| a.name()).collect();
    names.sort_unstable();
    let before = names.len();
    names.dedup();
    assert_eq!(names.len(), before, "two actions answer to the same name");
}

#[test]
fn every_default_key_is_reachable_by_its_own_spelling() {
    // `spell` writes the config name for a chord and `Chord::parse` reads
    // it back. If the two disagreed, the help screen would name a key that
    // the config file refuses.
    let bindings = Bindings::default();
    let mut seen = 0;
    for action in Action::ALL {
        for written in bindings.keys_for(action) {
            let chord = Chord::parse(&written).expect("the config file takes it");
            assert_eq!(spell(chord), written, "{written:?}");
            let modifiers = if chord.control {
                Modifiers::control()
            } else {
                Modifiers::none()
            };
            assert_eq!(bindings.action(chord.code, modifiers), Some(action));
            seen += 1;
        }
    }
    assert_eq!(seen, 42, "every key of the default table");
}

#[test]
fn a_capital_letter_is_a_different_key_from_its_lower_case() {
    assert_ne!(
        Chord::parse("K").unwrap(),
        Chord::parse("k").unwrap(),
        "K and k are different keys on the keyboard"
    );
}

#[test]
fn control_is_spelled_with_a_prefix() {
    assert_eq!(
        Chord::parse("ctrl-c").unwrap(),
        Chord::ctrl(Key::Char('c'))
    );
}

#[test]
fn an_unknown_key_name_is_refused_by_name() {
    let error = Chord::parse("meta-x").unwrap_err();
    assert!(error.contains("meta-x"), "{error}");
}

#[test]
fn binding_a_key_takes_it_from_whatever_held_it() {
    // The point of the table being replaceable: `j` means what the reader
    // last said it means, not both things at once.
    let mut bindings = Bindings::default();
    bindings
        .apply(&vec![("j".to_string(), KeyBinding::Named("quit".into()))])
        .unwrap();

    assert_eq!(
        bindings.action(Key::Char('j'), Modifiers::none()),
        Some(Action::Quit)
    );
    // `Down` was the other way to select the next row and is untouched.
    assert_eq!(
        bindings.action(Key::Down, Modifiers::none()),
        Some(Action::SelectNext)
    );
}

#[test]
fn a_key_can_be_unbound_so_it_does_nothing() {
    let mut bindings = Bindings::default();
    bindings
        .apply(&vec![("r".to_string(), KeyBinding::Unbound)])
        .unwrap();

    assert_eq!(
        bindings.action(Key::Char('r'), Modifiers::none()),
        None
    );
}

#[test]
fn an_unknown_action_names_itself_and_its_key() {
    let mut bindings = Bindings::default();
    let error = bindings
        .apply(&vec![("x".to_string(), KeyBinding::Named("fly".into()))])
        .unwrap_err();

    assert!(error.contains("fly"), "{error}");
    assert!(error.contains("x"), "{error}");
}

#[test]
fn an_unbound_action_is_shown_as_nothing_rather_than_a_guess() {
    let mut bindings = Bindings::default();
    for key in ["q", "ctrl-c"] {
        bindings
            .apply(&vec![(key.to_string(), KeyBinding::Unbound)])
            .unwrap();
    }
    assert_eq!(bindings.shown_for(Action::Quit), "");
}

#[test]
fn the_arrow_keys_are_shown_as_arrows() {
    // The reference draws the glyph on the reader's keyboard, not the word
    // the config file spells it with.
    let bindings = Bindings::default();
    assert_eq!(bindings.shown_for(Action::SelectNext), "↓ / j");
}

#[test]
fn an_empty_key_is_refused_as_it_was_written() {
    assert_eq!(Chord::parse("").unwrap_err(), "empty key: \"\"");
    assert_eq!(Chord::parse("ctrl-").unwrap_err(), "empty key: \"ctrl-\"");
}

#[test]
fn a_refused_name_is_quoted_with_what_would_not_print_escaped() {
    assert_eq!(
        Chord::parse("a\tb").unwrap_err(),
        "unknown key: \"a\\tb\""
    );
}

#[test]
fn entries_before_a_bad_one_stay_applied() {
    let mut bindings = Bindings::default();
    let refused = bindings.apply(&vec![
        ("x".to_string(), KeyBinding::Named("quit".into())),
        ("y".to_string(), KeyBinding::Named("fly".into())),
    ]);
    assert_eq!(
        refused.unwrap_err(),
        "unknown action \"fly\" bound to \"y\""
    );
    assert_eq!(
        bindings.action(Key::Char('x'), Modifiers::none()),
        Some(Action::Quit)
    );
}

#[test]
fn a_chord_drops_every_modifier_but_control() {
    let shifted = Modifiers {
        control: false,
        shift: true,
        alt: true,
    };
    assert_eq!(
        Chord::of(Key::Char('K'), shifted),
        Chord::plain(Key::Char('K'))
    );
}
