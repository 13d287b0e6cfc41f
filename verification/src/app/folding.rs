//! Folding and unfolding.

use vstd::prelude::*;

use crate::app::{fold_toggled, App};
use crate::tree::folding::{folding_leaves_the_row, ordered};
use crate::tree::{addressable, node_at, rows_of};

verus! {

/// Folding changes one node and keeps the cursor on it, so that folding a second
/// time undoes the first: the folds, the rows and the cursor are what they were.
/// On a file, or on no row, there is nothing to fold and nothing changes.
pub proof fn folding_twice_changes_nothing(before: App, between: App, after: App)
    requires
        addressable(before.data.projects@),
        ordered(before.data.projects@),
        before.view.rows@ == rows_of(
            before.data.projects@,
            before.view.collapsed@,
            before.input.filter.query@,
        ),
        fold_toggled(before, between),
        fold_toggled(between, after),
    ensures
        between.row() == before.row(),
        between.view.selected == before.view.selected,
        after.view.collapsed@ == before.view.collapsed@,
        after.view.rows@ == before.view.rows@,
        after.view.selected == before.view.selected,
        before.row() is None || node_at(before.data.projects@, before.row()->0) is None ==> after
            == before,
{
    if let Some(row) = before.row() {
        if let Some(key) = node_at(before.data.projects@, row) {
            folding_leaves_the_row(
                before.data.projects@,
                before.view.collapsed@,
                between.view.collapsed@,
                before.input.filter.query@,
                key,
                before.view.selected as int,
            );
            assert(after.view.collapsed@ =~= before.view.collapsed@);
        }
    }
}

} // verus!
