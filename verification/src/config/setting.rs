//! Which setting a line of a config file sets.

use vstd::prelude::*;
use vstd::string::*;

use crate::config::keys::{
    action_name, action_names_read_back, entry_applied, spelled, spellings_read_back,
    Action, Chord, KeyBinding,
};
use crate::config::{
    empty_file, empty_forge, empty_panels, empty_thresholds, file_said, forge_taken,
    key_value, keys_taken, panel_taken, resolved, section_taken, taken, threshold_taken, FileView,
    ForgeFile, KeyValue, PanelsFile, Setting, ThresholdsFile,
};

verus! {

/// What entries set under a key: the last of them that has it.
pub open spec fn set_under(entries: Seq<(String, Setting)>, key: Seq<char>) -> Option<Setting>
    decreases entries.len(),
{
    if entries.len() == 0 {
        None
    } else if entries.last().0@ == key {
        Some(entries.last().1)
    } else {
        set_under(entries.drop_last(), key)
    }
}

/// Whether a number is what is set under a key, or nothing is.
pub open spec fn is_number(set: Option<Setting>, n: Option<int>) -> bool {
    match set {
        None => n is None,
        Some(value) => value matches Setting::Whole(m) && n == Some(m as int),
    }
}

/// Whether a switch is what is set under a key, or nothing is.
pub open spec fn is_switch(set: Option<Setting>, b: Option<bool>) -> bool {
    match set {
        None => b is None,
        Some(value) => value matches Setting::Switch(on) && b == Some(on),
    }
}

/// Taking entries one by one is taking all but the last, and then the last.
proof fn lemma_taken_last<T>(
    start: T,
    entries: Seq<(String, Setting)>,
    take: spec_fn(T, Seq<char>, Setting) -> Result<T, Seq<char>>,
)
    requires
        entries.len() > 0,
    ensures
        taken(start, entries, take) == (match taken(start, entries.drop_last(), take) {
            Ok(next) => take(next, entries.last().0@, entries.last().1),
            Err(e) => Err(e),
        }),
    decreases entries.len(),
{
    if entries.len() == 1 {
        assert(entries.skip(1) =~= Seq::<(String, Setting)>::empty());
        assert(entries.drop_last() =~= Seq::<(String, Setting)>::empty());
        match take(start, entries[0].0@, entries[0].1) {
            Ok(next) => {
                assert(taken(next, entries.skip(1), take) == Ok::<T, Seq<char>>(next));
            },
            Err(_) => {},
        }
    } else {
        let front = entries.drop_last();
        assert(front[0] == entries[0]);
        match take(start, entries[0].0@, entries[0].1) {
            Ok(next) => {
                lemma_taken_last(next, entries.skip(1), take);
                assert(entries.skip(1).drop_last() =~= front.skip(1));
                assert(entries.skip(1).last() == entries.last());
            },
            Err(_) => {},
        }
    }
}

/// Every number under `[thresholds]` sets the threshold that it is named after, and
/// no other; an entry that names none is refused.
pub proof fn thresholds_are_set_by_their_names(entries: Seq<(String, Setting)>)
    ensures
        taken(
            empty_thresholds(),
            entries,
            |f: ThresholdsFile, k: Seq<char>, v: Setting| threshold_taken(f, k, v),
        ) matches Ok(file) ==> {
            &&& is_number(set_under(entries, "auto_fold"@), opt_usize(file.auto_fold))
            &&& is_number(
                set_under(entries, "side_by_side_min_width"@),
                opt_u16(file.side_by_side_min_width),
            )
            &&& is_number(set_under(entries, "tick_ms"@), opt_u64(file.tick_ms))
            &&& is_number(set_under(entries, "debounce_ms"@), opt_u64(file.debounce_ms))
            &&& is_number(set_under(entries, "max_commits"@), opt_usize(file.max_commits))
            &&& forall|i: int|
                0 <= i < entries.len() ==> {
                    let key = (#[trigger] entries[i]).0@;
                    key == "auto_fold"@ || key == "side_by_side_min_width"@ || key == "tick_ms"@
                        || key == "debounce_ms"@ || key == "max_commits"@
                }
        },
    decreases entries.len(),
{
    let take = |f: ThresholdsFile, k: Seq<char>, v: Setting| threshold_taken(f, k, v);
    reveal_strlit("auto_fold");
    reveal_strlit("side_by_side_min_width");
    reveal_strlit("tick_ms");
    reveal_strlit("debounce_ms");
    reveal_strlit("max_commits");
    assert("auto_fold"@.len() == 9 && "side_by_side_min_width"@.len() == 22);
    assert("tick_ms"@.len() == 7);
    assert("debounce_ms"@[0] == 'd' && "max_commits"@[0] == 'm');
    assert("debounce_ms"@.len() == 11 && "max_commits"@.len() == 11);
    if entries.len() > 0 {
        lemma_taken_last(empty_thresholds(), entries, take);
        thresholds_are_set_by_their_names(entries.drop_last());
        if let Ok(file) = taken(empty_thresholds(), entries, take) {
            assert forall|i: int| 0 <= i < entries.len() implies {
                let key = (#[trigger] entries[i]).0@;
                key == "auto_fold"@ || key == "side_by_side_min_width"@ || key == "tick_ms"@ || key
                    == "debounce_ms"@ || key == "max_commits"@
            } by {
                if i < entries.len() - 1 {
                    assert(entries.drop_last()[i] == entries[i]);
                }
            }
        }
    }
}

pub open spec fn opt_usize(o: Option<usize>) -> Option<int> {
    match o {
        Some(n) => Some(n as int),
        None => None,
    }
}

pub open spec fn opt_u16(o: Option<u16>) -> Option<int> {
    match o {
        Some(n) => Some(n as int),
        None => None,
    }
}

pub open spec fn opt_u64(o: Option<u64>) -> Option<int> {
    match o {
        Some(n) => Some(n as int),
        None => None,
    }
}

/// Every switch under `[panels]` sets the panel that it is named after, and no
/// other; an entry that names none is refused.
pub proof fn panels_are_set_by_their_names(entries: Seq<(String, Setting)>)
    ensures
        taken(
            empty_panels(),
            entries,
            |f: PanelsFile, k: Seq<char>, v: Setting| panel_taken(f, k, v),
        ) matches Ok(file) ==> {
            &&& is_switch(set_under(entries, "show_all"@), file.show_all)
            &&& is_switch(set_under(entries, "show_help"@), file.show_help)
            &&& is_switch(set_under(entries, "side_by_side"@), file.side_by_side)
        },
    decreases entries.len(),
{
    let take = |f: PanelsFile, k: Seq<char>, v: Setting| panel_taken(f, k, v);
    reveal_strlit("show_all");
    reveal_strlit("show_help");
    reveal_strlit("side_by_side");
    assert("show_all"@.len() == 8 && "show_help"@.len() == 9 && "side_by_side"@.len() == 12);
    if entries.len() > 0 {
        lemma_taken_last(empty_panels(), entries, take);
        panels_are_set_by_their_names(entries.drop_last());
    }
}

/// What stands under `[forge]` sets what it is named after; an entry that names
/// nothing is refused.
pub proof fn the_forge_is_set_by_its_names(entries: Seq<(String, Setting)>)
    ensures
        taken(
            empty_forge(),
            entries,
            |f: ForgeFile, k: Seq<char>, v: Setting| forge_taken(f, k, v),
        ) matches Ok(file) ==> {
            &&& is_switch(set_under(entries, "enabled"@), file.enabled)
            &&& is_number(set_under(entries, "interval_secs"@), opt_u64(file.interval_secs))
        },
    decreases entries.len(),
{
    let take = |f: ForgeFile, k: Seq<char>, v: Setting| forge_taken(f, k, v);
    reveal_strlit("enabled");
    reveal_strlit("interval_secs");
    assert("enabled"@.len() == 7 && "interval_secs"@.len() == 13);
    if entries.len() > 0 {
        lemma_taken_last(empty_forge(), entries, take);
        the_forge_is_set_by_its_names(entries.drop_last());
    }
}

/// A table of a file is read as the section that it is named after, and no other: of
/// a file that is accepted, each section is what its table says, or says nothing
/// where the file has no such table.
pub proof fn sections_are_read_by_their_names(sections: Seq<(String, Setting)>)
    ensures
        file_said(sections) matches Ok(file) ==> {
            &&& set_under(sections, "thresholds"@) is None ==> file.thresholds == empty_thresholds()
            &&& set_under(sections, "thresholds"@) matches Some(Setting::Table(es)) ==> taken(
                empty_thresholds(),
                es@,
                |f: ThresholdsFile, k: Seq<char>, v: Setting| threshold_taken(f, k, v),
            ) == Ok::<ThresholdsFile, Seq<char>>(file.thresholds)
            &&& set_under(sections, "panels"@) is None ==> file.panels == empty_panels()
            &&& set_under(sections, "panels"@) matches Some(Setting::Table(es)) ==> taken(
                empty_panels(),
                es@,
                |f: PanelsFile, k: Seq<char>, v: Setting| panel_taken(f, k, v),
            ) == Ok::<PanelsFile, Seq<char>>(file.panels)
            &&& set_under(sections, "forge"@) is None ==> file.forge == empty_forge()
            &&& set_under(sections, "forge"@) matches Some(Setting::Table(es)) ==> taken(
                empty_forge(),
                es@,
                |f: ForgeFile, k: Seq<char>, v: Setting| forge_taken(f, k, v),
            ) == Ok::<ForgeFile, Seq<char>>(file.forge)
            &&& set_under(sections, "keys"@) is None ==> file.keys.len() == 0
            &&& set_under(sections, "keys"@) matches Some(Setting::Table(es)) ==> keys_taken(
                Seq::empty(),
                es@,
            ) == Ok::<Seq<(String, KeyValue)>, Seq<char>>(file.keys)
        },
    decreases sections.len(),
{
    let take = |f: FileView, k: Seq<char>, v: Setting| section_taken(f, k, v);
    reveal_strlit("thresholds");
    reveal_strlit("panels");
    reveal_strlit("forge");
    reveal_strlit("keys");
    assert("thresholds"@.len() == 10 && "panels"@.len() == 6 && "forge"@.len() == 5 && "keys"@.len()
        == 4);
    if sections.len() > 0 {
        lemma_taken_last(empty_file(), sections, take);
        sections_are_read_by_their_names(sections.drop_last());
    }
}

/// What is in force is what the file sets, and what it does not set is as it is
/// without a file.
pub proof fn what_is_set_is_in_force(file: FileView)
    ensures
        resolved(file) matches Ok(config) ==> {
            &&& config.thresholds.auto_fold == (match file.thresholds.auto_fold {
                Some(n) => n,
                None => 25,
            })
            &&& config.thresholds.side_by_side_min_width == (match file.thresholds.side_by_side_min_width {
                Some(n) => n,
                None => 80,
            })
            &&& config.thresholds.tick_ms == (match file.thresholds.tick_ms {
                Some(n) => n,
                None => 250,
            })
            &&& config.thresholds.debounce_ms == (match file.thresholds.debounce_ms {
                Some(n) => n,
                None => 400,
            })
            &&& config.thresholds.max_commits == (match file.thresholds.max_commits {
                Some(n) => n,
                None => 200,
            })
            &&& config.panels.show_all == (file.panels.show_all == Some(true))
            &&& config.panels.show_help == (file.panels.show_help == Some(true))
            &&& config.panels.side_by_side == (file.panels.side_by_side != Some(false))
            &&& config.forge.enabled == (file.forge.enabled != Some(false))
            &&& config.forge.interval_secs == (match file.forge.interval_secs {
                Some(n) => n,
                None => 120,
            })
        },
        resolved(file) is Err <== file.forge.enabled != Some(false) && file.forge.interval_secs == Some(
            0u64,
        ),
{
}

/// The entries under `[keys]` are taken one after another, as they are written: a
/// name for a name, and `false` for a key that does nothing.
pub proof fn keys_are_taken_as_written(start: Seq<(String, KeyValue)>, entries: Seq<(String, Setting)>)
    ensures
        keys_taken(start, entries) matches Ok(keys) ==> {
            &&& keys.len() == start.len() + entries.len()
            &&& forall|i: int| 0 <= i < start.len() ==> keys[i] == start[i]
            &&& forall|i: int|
                0 <= i < entries.len() ==> {
                    let (key, said) = #[trigger] keys[start.len() + i];
                    &&& key == entries[i].0
                    &&& match entries[i].1 {
                        Setting::Text(name) => said == KeyValue::Name(name),
                        Setting::Switch(on) => said == KeyValue::Off(on),
                        _ => false,
                    }
                }
        },
    decreases entries.len(),
{
    if entries.len() > 0 {
        if let Some(said) = key_value(entries[0].1) {
            let next = start.push((entries[0].0, said));
            let rest = entries.skip(1);
            keys_are_taken_as_written(next, rest);
            if let Ok(keys) = keys_taken(start, entries) {
                assert forall|i: int| 0 <= i < start.len() implies keys[i] == start[i] by {
                    assert(keys[i] == next[i]);
                }
                assert forall|i: int| 0 <= i < entries.len() implies {
                    let (key, said) = #[trigger] keys[start.len() + i];
                    &&& key == entries[i].0
                    &&& match entries[i].1 {
                        Setting::Text(name) => said == KeyValue::Name(name),
                        Setting::Switch(on) => said == KeyValue::Off(on),
                        _ => false,
                    }
                } by {
                    if i == 0 {
                        assert(keys[start.len() as int] == next[start.len() as int]);
                    } else {
                        assert(keys[start.len() + i] == keys[next.len() + (i - 1)]);
                        assert(rest[i - 1] == entries[i]);
                    }
                }
            }
        }
    }
}

/// A key that is bound to an action does that action, and a key that is bound to
/// nothing does nothing.
pub proof fn a_key_does_what_it_is_bound_to(
    map: Map<Chord, Action>,
    chord: Chord,
    action: Action,
    name: String,
)
    requires
        name@ == action_name(action),
    ensures
        entry_applied(map, spelled(chord), KeyBinding::Named(name)) == Ok::<
            Map<Chord, Action>,
            Seq<char>,
        >(map.insert(chord, action)),
        entry_applied(map, spelled(chord), KeyBinding::Unbound) == Ok::<
            Map<Chord, Action>,
            Seq<char>,
        >(map.remove(chord)),
{
    spellings_read_back(chord);
    action_names_read_back(action);
}

/// A setting that is of the right sort and in range is never refused.
pub proof fn what_fits_is_accepted(
    t: ThresholdsFile,
    p: PanelsFile,
    f: ForgeFile,
    n: i64,
    b: bool,
)
    ensures
        0 <= n ==> threshold_taken(t, "tick_ms"@, Setting::Whole(n)) is Ok && threshold_taken(
            t,
            "debounce_ms"@,
            Setting::Whole(n),
        ) is Ok && forge_taken(f, "interval_secs"@, Setting::Whole(n)) is Ok,
        0 <= n <= usize::MAX ==> threshold_taken(t, "auto_fold"@, Setting::Whole(n)) is Ok
            && threshold_taken(t, "max_commits"@, Setting::Whole(n)) is Ok,
        0 <= n <= u16::MAX ==> threshold_taken(t, "side_by_side_min_width"@, Setting::Whole(n)) is Ok,
        panel_taken(p, "show_all"@, Setting::Switch(b)) is Ok,
        panel_taken(p, "show_help"@, Setting::Switch(b)) is Ok,
        panel_taken(p, "side_by_side"@, Setting::Switch(b)) is Ok,
        forge_taken(f, "enabled"@, Setting::Switch(b)) is Ok,
{
    reveal_strlit("auto_fold");
    reveal_strlit("side_by_side_min_width");
    reveal_strlit("tick_ms");
    reveal_strlit("debounce_ms");
    reveal_strlit("max_commits");
    assert("auto_fold"@.len() == 9 && "side_by_side_min_width"@.len() == 22);
    assert("tick_ms"@.len() == 7);
    assert("debounce_ms"@[0] == 'd' && "max_commits"@[0] == 'm');
    assert("debounce_ms"@.len() == 11 && "max_commits"@.len() == 11);
    reveal_strlit("enabled");
    reveal_strlit("interval_secs");
    assert("enabled"@.len() == 7 && "interval_secs"@.len() == 13);
    reveal_strlit("show_all");
    reveal_strlit("show_help");
    reveal_strlit("side_by_side");
    assert("show_all"@.len() == 8 && "show_help"@.len() == 9 && "side_by_side"@.len() == 12);
}

} // verus!
