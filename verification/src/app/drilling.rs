//! Stepping into a submodule and back out again.
//!
//! # Why this is not folding
//!
//! A submodule's files already appear in the list — `crate::git::submodule`
//! folds them into the project that contains them, so `vendor/lib/src/a.rs`
//! sits under `vendor/` and folds away with it. That is enough to *see* them,
//! and for a submodule of a dozen files it is the better view: everything at
//! once, in the context it belongs to.
//!
//! It stops being enough when the submodule is a project in its own right.
//! Every path is then prefixed with the submodule's own, the outer project's
//! files are interleaved with it, and the branch on the header belongs to the
//! wrong repository. Drilling down answers that by making the submodule the
//! root: paths shorten to what the submodule itself calls them, and the list
//! shows one repository rather than a repository containing another.
//!
//! # How it is cheap
//!
//! The scanner is asked for whatever is in [`crate::app::Data::projects`], so
//! swapping that list for the submodule alone is the whole of the mechanism:
//! the rescan, the file watch and the refresh key all follow without knowing
//! this module exists.

use vstd::prelude::*;
use vstd::string::*;
use vstd::view::View as _;

use crate::app::{
    clamp, diff_and_notes_asked, diff_asked, noticed, App, Data, Layer, Notice, View,
};
use crate::discover::{directory_name, name_of_directory, Project};
use crate::model::StrayStatus;
use crate::paths::{join_paths, joined, Part};
use crate::scan::{is_placeholder, placeholder};
use crate::text::texts;
use crate::tree::{rows_of, Folds, ProjectStrays};

verus! {

/// Whether the cursor is on a submodule.
pub open spec fn on_submodule(app: App) -> bool {
    app.spot() is Some && app.stray_here().status is Submodule
}

/// Whether an app is another one that has stepped into the submodule under its
/// cursor: the list is the submodule alone, not read yet, and what was listed
/// before is laid aside. Folds belong to the tree they were made in, and stay
/// behind with it.
pub open spec fn entered(before: App, after: App) -> bool {
    let at = before.stray_here().path@;
    &&& after.data.projects@.len() == 1
    &&& after.data.projects@[0].project.root@ == joined(before.root_here(), at)
    &&& after.data.projects@[0].project.name@ == directory_name(at)
    &&& is_placeholder(after.data.projects@[0])
    &&& after.view.drilled@.len() == before.view.drilled@.len() + 1
    &&& after.view.drilled@.drop_last() == before.view.drilled@
    &&& after.view.drilled@.last().projects == before.data.projects
    &&& after.view.drilled@.last().selected == before.view.selected
    &&& after.view.drilled@.last().collapsed == before.view.collapsed
    &&& after.view.drilled@.last().at@ == at
    &&& after.view.collapsed@ == Set::<(int, Seq<Part>)>::empty()
    &&& after.view.rows@ == rows_of(
        after.data.projects@,
        after.view.collapsed@,
        before.input.filter.query@,
    )
    &&& diff_asked(
        App {
            data: Data { projects: after.data.projects, scanning: true, ..before.data },
            view: View {
                rows: after.view.rows,
                drilled: after.view.drilled,
                selected: 0,
                collapsed: after.view.collapsed,
                diff_scroll: 0,
                diff_cursor: 0,
                ..before.view
            },
            ..before
        },
        after,
    )
}

/// Whether an app is another one that has stepped back out of a submodule: what
/// was laid aside is listed again, as it was.
pub open spec fn left(before: App, after: App) -> bool {
    let layer = before.view.drilled@.last();
    &&& after.view.drilled@ == before.view.drilled@.drop_last()
    &&& after.view.rows@ == rows_of(
        layer.projects@,
        layer.collapsed@,
        before.input.filter.query@,
    )
    &&& diff_and_notes_asked(
        App {
            data: Data { projects: layer.projects, ..before.data },
            view: View {
                rows: after.view.rows,
                drilled: after.view.drilled,
                collapsed: layer.collapsed,
                selected: clamp(layer.selected, after.view.rows@.len()),
                diff_scroll: 0,
                diff_cursor: 0,
                ..before.view
            },
            ..before
        },
        after,
    )
}

/// The first project of the outermost layer whose submodule is standing on disk,
/// or simply the first.
pub open spec fn came_from(projects: Seq<ProjectStrays>, standing: Seq<bool>, i: int) -> int
    decreases projects.len() - i,
{
    if i < 0 || i >= projects.len() {
        0
    } else if i < standing.len() && standing[i] {
        i
    } else {
        came_from(projects, standing, i + 1)
    }
}

/// The trail of submodules that the reader has stepped into.
pub open spec fn trail(drilled: Seq<Layer>, standing: Seq<bool>) -> Seq<Seq<char>> {
    if drilled.len() == 0 {
        Seq::empty()
    } else {
        let outer = drilled[0].projects@;
        (if outer.len() == 0 {
            Seq::empty()
        } else {
            seq![outer[came_from(outer, standing, 0)].project.name@]
        }) + drilled.map_values(|layer: Layer| directory_name(layer.at@))
    }
}

impl App {
    /// Where the submodule under the cursor is checked out, so that it can be
    /// looked for.
    pub fn submodule_root(&self) -> (r: Option<String>)
        ensures
            match r {
                Some(inside) => on_submodule(*self) && inside@ == joined(
                    self.root_here(),
                    self.stray_here().path@,
                ),
                None => !on_submodule(*self),
            },
    {
        match self.selected_stray() {
            Some((root, stray)) => match stray.status {
                StrayStatus::Submodule => Some(join_paths(root.as_str(), stray.path.as_str())),
                _ => None,
            },
            None => None,
        }
    }

    /// Step into the submodule under the cursor, given whether it is checked
    /// out.
    ///
    /// Does nothing anywhere else. The key is bound globally, so it lands on
    /// ordinary files and directories far more often than on a submodule, and
    /// a message every time would be noise about a key the reader is holding
    /// down to move around.
    ///
    /// A gitlink whose worktree was never checked out has nothing to step into,
    /// and saying so is better than a view of an empty repository that looks
    /// like a clean one.
    pub fn enter_submodule(self, checked_out: bool) -> (r: Self)
        ensures
            !on_submodule(self) ==> r == self,
            on_submodule(self) && !checked_out ==> noticed(
                self,
                r,
                self.stray_here().path@ + " is not checked out"@,
                true,
            ),
            on_submodule(self) && checked_out ==> entered(self, r),
    {
        let inside = match self.submodule_root() {
            Some(inside) => inside,
            None => {
                return self;
            },
        };
        let at = match self.selected_stray() {
            Some((_, stray)) => stray.path.clone(),
            None => {
                return self;
            },
        };
        if !checked_out {
            return self.with_notice(Notice::error(at.concat(" is not checked out")));
        }
        let name = name_of_directory(at.as_str());
        let layer = Layer {
            projects: self.data.projects,
            selected: self.view.selected,
            collapsed: self.view.collapsed,
            at,
        };
        let mut drilled = self.view.drilled;
        let ghost outer = drilled@;
        drilled.push(layer);
        assert(drilled@.drop_last() =~= outer);
        let mut projects: Vec<ProjectStrays> = Vec::new();
        projects.push(placeholder(Project { root: inside, name }));
        App {
            data: Data { projects, scanning: true, ..self.data },
            view: View {
                drilled,
                selected: 0,
                collapsed: Folds::new(),
                diff_scroll: 0,
                diff_cursor: 0,
                ..self.view
            },
            ..self
        }.rebuilt().ask_diff()
    }

    /// Step back out to the view the last [`Self::enter_submodule`] covered up.
    ///
    /// Restores the outer projects as they were rather than rescanning them.
    /// They may be minutes stale by now, but they are what the reader was
    /// looking at, and the watch will refresh them as it would have anyway.
    /// Rescanning here would blank the list at the moment of return, which is
    /// exactly when the reader is trying to find their place again.
    ///
    /// Silent at the top: `left` is a movement key, and the top of the tree is
    /// where it runs out.
    pub fn leave_submodule(self) -> (r: Self)
        ensures
            self.view.drilled@.len() == 0 ==> r == self,
            self.view.drilled@.len() > 0 ==> left(self, r),
    {
        if self.view.drilled.len() == 0 {
            return self;
        }
        let mut drilled = self.view.drilled;
        match drilled.pop() {
            Some(layer) => {
                let app = App {
                    data: Data { projects: layer.projects, ..self.data },
                    view: View {
                        drilled,
                        collapsed: layer.collapsed,
                        selected: layer.selected,
                        diff_scroll: 0,
                        diff_cursor: 0,
                        ..self.view
                    },
                    ..self
                }.rebuilt();
                app.clamped().ask_diff_and_notes()
            },
            None => App { view: View { drilled, ..self.view }, ..self },
        }
    }

    /// The trail of submodules the reader has stepped into, outermost first,
    /// given for each project of the outermost layer whether the submodule that
    /// was stepped into stands on disk beneath it.
    ///
    /// Each is the last component of the submodule's path: the components
    /// before it are already spelled out by the breadcrumb to its left, and
    /// repeating them would spend the title's one line saying the same thing
    /// twice. The trail starts with the project the reader came from.
    pub fn breadcrumbs(&self, standing: &Vec<bool>) -> (r: Vec<String>)
        ensures
            texts(r@) == trail(self.view.drilled@, standing@),
    {
        let mut out: Vec<String> = Vec::new();
        if self.view.drilled.len() == 0 {
            assert(texts(out@) =~= Seq::<Seq<char>>::empty());
            return out;
        }
        let outer = &self.view.drilled[0].projects;
        if outer.len() > 0 {
            let at = outermost(outer, standing);
            out.push(outer[at].project.name.clone());
        }
        let ghost lead = texts(out@);
        let ghost names = self.view.drilled@.map_values(|layer: Layer| directory_name(layer.at@));
        assert(lead =~= (if outer@.len() == 0 {
            Seq::<Seq<char>>::empty()
        } else {
            seq![outer@[came_from(outer@, standing@, 0)].project.name@]
        }));
        for i in 0..self.view.drilled.len()
            invariant
                names == self.view.drilled@.map_values(
                    |layer: Layer| directory_name(layer.at@),
                ),
                texts(out@) =~= lead + names.take(i as int),
        {
            let name = name_of_directory(self.view.drilled[i].at.as_str());
            let ghost before = texts(out@);
            assert(names[i as int] == name@);
            out.push(name);
            assert(texts(out@) =~= before.push(name@));
        }
        assert(names.take(names.len() as int) =~= names);
        assert(texts(out@) =~= trail(self.view.drilled@, standing@));
        out
    }

    /// Whether the reader is inside a submodule rather than at the top.
    pub fn is_drilled(&self) -> (r: bool)
        ensures
            r == (self.view.drilled@.len() > 0),
    {
        self.view.drilled.len() > 0
    }
}

fn outermost(projects: &Vec<ProjectStrays>, standing: &Vec<bool>) -> (r: usize)
    requires
        projects@.len() > 0,
    ensures
        r == came_from(projects@, standing@, 0),
        r < projects@.len(),
{
    for i in 0..projects.len()
        invariant
            came_from(projects@, standing@, 0) == came_from(projects@, standing@, i as int),
    {
        if i < standing.len() && standing[i] {
            return i;
        }
    }
    0
}

/// Stepping into a submodule and straight back out lists what was listed, folded
/// as it was, with the cursor on the row it was on.
pub proof fn leaving_undoes_entering(before: App, inside: App, after: App)
    requires
        on_submodule(before),
        entered(before, inside),
        left(inside, after),
        before.view.rows@ == rows_of(
            before.data.projects@,
            before.view.collapsed@,
            before.input.filter.query@,
        ),
    ensures
        after.data.projects == before.data.projects,
        after.view.collapsed == before.view.collapsed,
        after.view.selected == before.view.selected,
        after.view.rows@ == before.view.rows@,
        after.view.drilled@ == before.view.drilled@,
{
}

} // verus!
