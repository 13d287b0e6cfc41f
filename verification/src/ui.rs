//! The key reference: what every key does, one line for each action.

use vstd::prelude::*;
use vstd::string::*;

use crate::config::keys::{
    action_name, lists_keys, symbol_of, Action, Bindings, Chord, ACTION_COUNT,
};
use crate::seqs::join_with;

verus! {

/// Whether a line of the reference names the keys of an action as they are shown
/// to a reader, and what the action is called. An action without a key says so
/// rather than leaving a blank that looks like a missing key.
pub open spec fn describes(line: Seq<char>, bindings: Map<Chord, Action>, action: Action) -> bool {
    exists|keys: Seq<Seq<char>>| #[trigger]
        lists_keys(keys, bindings, action) && line == (if join_with(
            keys.map_values(|k: Seq<char>| symbol_of(k)),
            " / "@,
        ).len() == 0 {
            "unbound"@
        } else {
            join_with(keys.map_values(|k: Seq<char>| symbol_of(k)), " / "@)
        }) + "  "@ + action_name(action)
}

/// The lines of the key reference, naming the keys in force rather than the
/// ones that hold where nothing is set.
pub fn help_lines(bindings: &Bindings) -> (r: Vec<String>)
    ensures
        r@.len() == ACTION_COUNT,
        forall|i: int|
            0 <= i < r@.len() ==> describes((#[trigger] r@[i])@, bindings@, Action::ALL@[i]),
{
    let actions = Action::ALL;
    let mut out: Vec<String> = Vec::new();
    for i in 0..actions.len()
        invariant
            actions == Action::ALL,
            out@.len() == i,
            forall|j: int|
                0 <= j < i ==> describes((#[trigger] out@[j])@, bindings@, actions@[j]),
    {
        let shown = bindings.shown_for(actions[i]);
        let keys = if shown.is_empty() {
            "unbound".to_owned()
        } else {
            shown
        };
        let line = keys.concat("  ").concat(actions[i].name());
        assert(describes(line@, bindings@, actions@[i as int]));
        out.push(line);
    }
    out
}

/// How many lines the key reference has.
pub fn help_line_count(bindings: &Bindings) -> (r: u16)
    ensures
        r == ACTION_COUNT,
{
    help_lines(bindings).len() as u16
}

} // verus!
