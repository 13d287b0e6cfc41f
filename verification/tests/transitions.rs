//! Transitions of the viewer that take an answer from outside, and the keys that
//! lead to them.

use herdr_strays::agent::{self, Agent, SendError};
use herdr_strays::annotate::{Kind, StoreError};
use herdr_strays::app::loading::{load_project, merge_tracked, most_recent_change, Answers};
use herdr_strays::app::pressing::{menu_for, Exit, Lazygit, Menu, Press, Step, Task};
use herdr_strays::app::{App, Data, Filter, Input, Notice, RevisionList, Revisions, View};
use herdr_strays::config::keys::{Key, Modifiers};
use herdr_strays::config::{parse, Config};
use herdr_strays::delegate::Action as Write;
use herdr_strays::discover::{Project, Scope};
use herdr_strays::forge::{Ci, ForgeStatus, PrComment};
use herdr_strays::git::base::Base;
use herdr_strays::git::query::Query;
use herdr_strays::git::run::GitError;
use herdr_strays::git::{branch, graph, history, stash};
use herdr_strays::model::{Diff, DiffLine, Stray, StrayStatus};
use herdr_strays::tree::ProjectStrays;

fn scanned(root: &str, strays: Vec<Stray>) -> ProjectStrays {
    ProjectStrays {
        project: Project {
            root: root.to_string(),
            name: "repo".into(),
        },
        strays,
        branch: Some("main".into()),
        upstream: None,
        touched: None,
        agent: None,
        error: None,
    }
}

fn files(paths: &[&str]) -> Vec<Stray> {
    paths
        .iter()
        .map(|p| Stray::new(StrayStatus::Modified, p))
        .collect()
}

/// A viewer on one project, before it has been read.
fn started() -> App {
    App::load(
        "herdr",
        vec![Project {
            root: "/repo/api".to_string(),
            name: "api".to_string(),
        }],
        None,
        Scope::AllWorkspaces,
        &Config::default(),
    )
}

/// The same viewer once the project has two files, with the cursor on the first.
fn reading() -> App {
    started()
        .with_project_scanned(scanned("/repo/api", files(&["a.rs", "b.rs"])))
        .select_next()
}

fn helper() -> Vec<Agent> {
    vec![Agent {
        pane_id: "w3:p1".to_string(),
        workspace_id: "w3".to_string(),
        cwd: "/repo/api".to_string(),
    }]
}

fn said(app: &App) -> &str {
    app.view.notice.as_ref().map_or("", |n| n.text.as_str())
}

fn press(c: char) -> Press {
    Press::Key {
        code: Key::Char(c),
        modifiers: Modifiers::none(),
    }
}

fn added(lines: &[&str]) -> Diff {
    let text: Vec<DiffLine> = lines.iter().map(|l| DiffLine::parse(l)).collect();
    Diff::Text(herdr_strays::model::number_lines(text))
}

#[test]
fn with_nothing_open_the_repository_stood_in_is_listed() {
    let app = App::load(
        "herdr",
        Vec::new(),
        Some("/home/ada/notes".to_string()),
        Scope::AllWorkspaces,
        &Config::default(),
    );
    assert_eq!(app.roots(), vec!["/home/ada/notes"]);
    assert_eq!(app.data.projects[0].project.name, "notes");
    assert_eq!(app.view.rows.len(), 1);
    assert!(app.is_empty());
}

#[test]
fn moving_the_cursor_asks_for_the_diff_and_the_notes() {
    let app = reading();
    assert_eq!(app.view.selected, 1);
    assert!(app.pending.diff);
    assert!(app.pending.notes);
    assert_eq!(app.selected_stray().unwrap().1.path, "a.rs");
    assert_eq!(app.total_strays(), 2);

    let app = app.select_previous();
    assert_eq!(app.data.diff, Diff::Empty);
    assert!(!app.pending.diff, "a project row has no diff to ask for");
}

#[test]
fn a_diff_that_failed_becomes_a_notice() {
    let app = reading().with_diff_loaded(Err(GitError::NotInstalled));
    assert_eq!(app.data.diff, Diff::Empty);
    assert_eq!(
        said(&app),
        "git not found in PATH — strays needs the git binary"
    );
    assert!(!app.pending.diff);
}

#[test]
fn a_diff_brings_its_words_and_asks_for_blame_only_while_it_shows() {
    let diff = added(&["@@ -1 +1 @@", "-let a = 1;", "+let b = 1;"]);
    let app = reading().with_diff_loaded(Ok(diff.clone()));
    assert_eq!(app.data.words.len(), 3);
    assert!(!app.pending.blame);

    let app = app.toggle_blame();
    assert!(app.pending.blame);
    let app = app.with_blame_loaded(&Err(GitError::NotARepository));
    assert!(app.data.blame.is_empty());
    assert!(!app.pending.blame);
    assert!(!app.toggle_blame().view.show_blame);
}

#[test]
fn the_cursor_follows_its_file_through_a_scan() {
    let app = reading();
    let app = app.with_project_scanned(scanned("/repo/api", files(&["0.rs", "a.rs", "b.rs"])));
    assert_eq!(app.selected_stray().unwrap().1.path, "a.rs");

    let gone = app.with_project_scanned(scanned("/repo/elsewhere", files(&["x.rs"])));
    assert_eq!(gone.total_strays(), 3, "not listed, so not applied");
}

#[test]
fn a_finished_scan_withdraws_only_its_own_notice() {
    let app = started().refresh();
    assert_eq!(said(&app), "refreshing…");
    let app = app.scan_finished();
    assert!(!app.data.scanning);
    assert_eq!(app.view.notice, None);

    let kept = started()
        .with_notice(Notice::info("mine".to_string()))
        .scan_finished();
    assert_eq!(said(&kept), "mine");
}

#[test]
fn a_refresh_is_a_request_of_its_own() {
    let app = started().scan_started();
    let dispatched = Some(app.scan_request());
    assert!(app.scan_due(&dispatched).is_none());

    let app = app.refresh();
    assert!(app.scan_due(&dispatched).is_some());
    assert!(app.scan_due(&None).is_some());
    assert!(app.scan_finished().scan_due(&None).is_none());
}

#[test]
fn the_base_toggles_and_says_against_what() {
    let branch = Base::MergeBase {
        name: "origin/main".to_string(),
        commit: "abc".to_string(),
    };
    let app = started().toggle_base(Some(Ok(branch)));
    assert_eq!(said(&app), "comparing against origin/main");
    assert!(app.data.scanning);
    let app = app.toggle_base(None);
    assert!(app.data.base.is_head());
    assert_eq!(said(&app), "comparing against HEAD");

    let refused = started().with_named_base(Err(GitError::NotARepository));
    assert!(refused.view.notice.unwrap().is_error);
    assert!(refused.data.base.is_head());
}

#[test]
fn narrowing_to_nothing_is_undone() {
    let app = started().toggle_scope(Some("w9"), Vec::new());
    assert!(app.view.scope.is_all());
    assert!(app.view.notice.as_ref().unwrap().is_error);

    let app = app.toggle_scope(
        Some("w3"),
        vec![Project {
            root: "/repo/web".to_string(),
            name: "web".to_string(),
        }],
    );
    assert_eq!(app.view.scope, Scope::CurrentWorkspace("w3".to_string()));
    assert_eq!(app.roots(), vec!["/repo/web"]);
    assert_eq!(said(&app), "this workspace only");
}

#[test]
fn folding_the_project_under_the_cursor_hides_its_files() {
    let app = started().with_project_scanned(scanned("/repo/api", files(&["a.rs", "b.rs"])));
    assert_eq!(app.view.rows.len(), 3);
    let app = app.toggle_collapsed();
    assert_eq!(app.view.rows.len(), 1);
    assert_eq!(app.toggle_collapsed().view.rows.len(), 3);
}

#[test]
fn stepping_into_a_submodule_and_out_again_puts_everything_back() {
    let strays = vec![Stray::new(StrayStatus::Submodule, "vendor/lib")];
    let app = started().with_project_scanned(scanned("/repo/api", strays));
    let app = app.select_next().select_next();
    assert_eq!(app.submodule_root().as_deref(), Some("/repo/api/vendor/lib"));

    let refused = app.clone().enter_submodule(false);
    assert_eq!(said(&refused), "vendor/lib is not checked out");

    let inside = app.clone().enter_submodule(true);
    assert_eq!(inside.roots(), vec!["/repo/api/vendor/lib"]);
    assert_eq!(inside.data.projects[0].project.name, "lib");
    assert!(inside.is_drilled());
    assert_eq!(inside.breadcrumbs(&vec![true]), vec!["api", "lib"]);

    let back = inside.leave_submodule();
    assert_eq!(back.roots(), app.roots());
    assert_eq!(back.view.selected, app.view.selected);
    assert_eq!(back.view.rows, app.view.rows);
    assert!(!back.is_drilled());
    assert!(back.breadcrumbs(&Vec::new()).is_empty());
}

#[test]
fn a_prompt_goes_to_the_agent_in_the_repository() {
    let app = reading().begin_prompt(&helper());
    let app = app.prompt_push('w').prompt_push('h').prompt_push('y');
    let parcel = app.prompt_parcel(&helper()).expect("somebody to send to");
    assert_eq!(
        parcel.arguments(),
        vec!["pane", "send-text", "w3:p1", "a.rs: why"]
    );
    assert_eq!(parcel.focus_arguments(), vec!["agent", "focus", "w3:p1"]);

    let sent = app.clone().send_prompt(&helper(), Ok(()));
    assert_eq!(said(&sent), "sent to the agent — press Enter there to run it");
    let failed = app.send_prompt(
        &helper(),
        Err(SendError::Herdr("no such pane".to_string())),
    );
    assert_eq!(said(&failed), "herdr refused: no such pane");

    let nobody = reading().begin_prompt(&Vec::new());
    assert_eq!(said(&nobody), "no agent running in this project");
    assert_eq!(nobody.input.prompt, None);
    assert_eq!(
        said(&started().begin_prompt(&helper())),
        "select a file to prompt about"
    );
}

#[test]
fn a_hand_off_is_judged_by_how_herdr_ended() {
    assert_eq!(agent::send(Ok((true, Vec::new()))), Ok(()));
    assert_eq!(
        agent::send(Ok((false, b" no such pane \n".to_vec()))),
        Err(SendError::Herdr("no such pane".to_string()))
    );
    assert_eq!(
        agent::send(Err("not found".to_string())),
        Err(SendError::Herdr("not found".to_string()))
    );
    assert!(agent::list(None).is_empty());
}

#[test]
fn a_write_is_asked_of_the_agent_and_never_made() {
    let parcel = reading()
        .action_parcel(&Write::Stage, &helper())
        .expect("somebody to ask");
    assert_eq!(parcel.text, ": Please stage a.rs");
    let app = reading().delegate_stage(&helper(), Ok(()));
    assert_eq!(
        said(&app),
        "stage sent to the agent — press Enter there to run it"
    );
    let app = reading().delegate_unstage(&Vec::new(), Ok(()));
    assert!(app.view.notice.unwrap().is_error);

    let app = reading().begin_stash(&helper());
    assert!(app.input.delegating.is_some());
    let parcel = app.delegating_parcel(&helper()).unwrap();
    assert_eq!(parcel.text, ": Please stash a.rs");
}

#[test]
fn a_note_is_kept_in_memory_even_where_writing_it_fails() {
    let diff = added(&["@@ -0,0 +1 @@", "+let a = 1;"]);
    let app = reading()
        .with_diff_loaded(Ok(diff))
        .cursor_down()
        .begin_annotation()
        .annotation_push('x');
    let (root, notes) = app.notes_to_save().expect("something to write");
    assert_eq!(root, "/repo/api");
    assert_eq!(notes.len(), 1);

    let failed = app
        .clone()
        .save_annotation(Err(StoreError::Io("disk full".to_string())));
    assert_eq!(failed.data.annotations.len(), 1);
    assert!(failed.view.notice.as_ref().unwrap().is_error);

    let saved = app.save_annotation(Ok(()));
    assert_eq!(said(&saved), "1 noted");
    assert_eq!(saved.orphaned_count(), 0);
    assert_eq!(saved.located_annotations(), vec![(1, Kind::Issue)]);

    let parcel = saved.review_parcel(&helper()).expect("a review to send");
    assert!(parcel.text.contains("a.rs:1 (issue)"), "{}", parcel.text);
    let kept = saved.clone().send_review(
        &helper(),
        Err(SendError::Herdr("gone".to_string())),
        Ok(()),
    );
    assert_eq!(kept.data.annotations.len(), 1, "it never arrived");
    let sent = saved.clone().send_review(&helper(), Ok(()), Ok(()));
    assert!(sent.data.annotations.is_empty());
    let stuck = saved.clone().send_review(
        &helper(),
        Ok(()),
        Err(StoreError::Io("disk full".to_string())),
    );
    assert!(said(&stuck).starts_with("review sent, but clearing the notes failed"));

    let (_, rest) = saved.notes_without_line().expect("one to remove");
    assert!(rest.is_empty());
    let removed = saved.remove_annotation_here(Ok(()));
    assert_eq!(said(&removed), "annotation removed");
    assert!(removed.data.annotations.is_empty());
}

#[test]
fn what_is_stored_replaces_the_notes_that_are_held() {
    let app = reading().with_annotations_loaded(None);
    assert!(app.data.annotations.is_empty());
    assert!(!app.pending.notes);
}

#[test]
fn a_reviewers_words_stand_where_the_forge_put_them() {
    let status = ForgeStatus {
        ci: Ci::Passed,
        comments: vec![PrComment {
            file: "a.rs".to_string(),
            line: 1,
            author: "ada".to_string(),
            body: "why?".to_string(),
        }],
        ..Default::default()
    };
    let app = reading()
        .with_forge_status("/repo/api".to_string(), status)
        .with_diff_loaded(Ok(added(&["@@ -0,0 +1 @@", "+let a = 1;"])));
    assert_eq!(app.commented_lines(), vec![1]);
    assert!(app.comments_here().is_empty(), "a hunk header has no line");
    let app = app.cursor_down();
    assert_eq!(app.comments_here()[0].body, "why?");
}

#[test]
fn the_lists_share_a_pane_and_close_alike() {
    let entry = history::Entry {
        commit: "fc47873c7218d72e0aabb8fa3bd6d91ebd723b31".to_string(),
        short: "fc47873".to_string(),
        author: "Ada".to_string(),
        author_time: 7,
        subject: "add a line".to_string(),
    };
    let app = reading().toggle_history(vec![entry]);
    let list = app.view.revisions.as_ref().expect("the list is open");
    assert_eq!(list.title(), " history of a.rs ");
    assert_eq!(list.len(), 1);
    assert_eq!(list.rows()[0].label, "add a line");
    assert_eq!(list.current_commit().unwrap().short, "fc47873");
    assert!(list.current_stash().is_none());

    let printed = Ok(b"af0314c\n".to_vec());
    let shown = app
        .clone()
        .show_revision(&printed, Ok(b"af0314c\n".to_vec()));
    assert_eq!(said(&shown), "fc47873 — add a line");
    assert!(shown.view.revisions.is_none());
    assert_eq!(shown.data.base.rev(), "af0314c");

    let root: Result<Vec<u8>, GitError> = Ok(Vec::new());
    let kept = app.clone().show_revision(&root, Ok(Vec::new()));
    assert!(kept.view.revisions.is_some(), "another can be chosen");
    assert!(kept.view.notice.unwrap().is_error);

    let closed = app.toggle_stashes(Vec::new());
    assert!(closed.view.revisions.is_none());
    assert_eq!(said(&closed.toggle_stashes(Vec::new())), "nothing stashed");
    assert_eq!(
        said(&started().toggle_history(Vec::new())),
        "select a file to see its history"
    );
    assert_eq!(
        said(&reading().toggle_history(Vec::new())),
        "a.rs has no commits yet"
    );
    assert_eq!(said(&reading().toggle_branches(Vec::new())), "no branches");
    assert_eq!(said(&reading().toggle_graph(Vec::new())), "no commits yet");
}

#[test]
fn a_stash_and_a_branch_are_drawn_by_what_the_reader_calls_them() {
    let set_aside = stash::Entry {
        selector: "stash@{0}".to_string(),
        commit: "fc47873c7218d72e0aabb8fa3bd6d91ebd723b31".to_string(),
        short: "fc47873".to_string(),
        author: "Ada".to_string(),
        author_time: 7,
        message: "an idea".to_string(),
    };
    let app = reading().toggle_stashes(vec![set_aside]);
    let list = app.view.revisions.as_ref().unwrap();
    assert_eq!(list.title(), " stashes ");
    assert_eq!(list.rows()[0].short, "stash@{0}");
    assert_eq!(list.current_stash().unwrap().message, "an idea");

    let feature = branch::Branch {
        name: "feature".to_string(),
        short: "af0314c".to_string(),
        author: "Ada".to_string(),
        committed: 9,
        upstream: None,
        track: None,
        current: false,
        subject: "work".to_string(),
    };
    let app = reading().toggle_branches(vec![feature]);
    let list = app.view.revisions.as_ref().unwrap();
    assert_eq!(list.title(), " branches ");
    assert_eq!(list.rows()[0].short, "feature");
    assert!(!list.is_empty());
    let shown = app.show_revision(&Ok(Vec::new()), Ok(b"2d4cee4\n".to_vec()));
    assert_eq!(said(&shown), "what feature does not have");
}

#[test]
fn the_graph_cursor_steps_over_connectors() {
    let commit = |short: &str| graph::Row::Commit {
        rail: "* ".to_string(),
        commit: format!("{short}000"),
        short: short.to_string(),
        author: "Ada".to_string(),
        author_time: 7,
        subject: "s".to_string(),
    };
    let line = || graph::Row::Connector {
        rail: "|\\".to_string(),
    };
    let app = reading().toggle_graph(vec![line(), commit("a"), line(), commit("b"), line()]);
    let at = |app: &App| app.view.revisions.as_ref().unwrap().selected;
    assert_eq!(at(&app), 1, "opens on a commit");
    let app = app.revisions_next();
    assert_eq!(at(&app), 3);
    let app = app.revisions_next();
    assert_eq!(at(&app), 3, "nothing selectable further down");
    let app = app.revisions_previous();
    assert_eq!(at(&app), 1);
    assert_eq!(at(&app.clone().revisions_previous()), 1);
    let list = app.view.revisions.as_ref().unwrap();
    assert!(!list.is_selectable(0));
    assert_eq!(list.rows()[0].rail, Some("|\\"));
    assert!(matches!(list.kind, RevisionList::Graph { .. }));
    let shown = app.show_revision(&Ok(Vec::new()), Ok(b"0000\n".to_vec()));
    assert_eq!(said(&shown), "a — s");
}

#[test]
fn a_q_typed_into_a_line_does_not_quit() {
    let app = App {
        input: Input {
            prompt: Some(String::new()),
            ..started().input
        },
        ..started()
    };
    let (app, task) = app.respond(press('q'), 20);
    assert!(!app.should_quit);
    assert_eq!(task, None);
    assert_eq!(app.input.prompt.as_deref(), Some("q"));

    let (quitting, _) = started().respond(press('q'), 20);
    assert!(quitting.should_quit);
}

#[test]
fn escape_backs_out_of_what_covers_the_list_before_it_quits() {
    let covered = App {
        view: View {
            show_help: true,
            ..started().view
        },
        input: Input {
            filter: Filter {
                query: "mod".to_string(),
                editing: false,
            },
            ..started().input
        },
        ..started()
    };
    let (app, _) = covered.respond(Press::Esc, 20);
    assert!(!app.view.show_help);
    assert_eq!(app.input.filter.query, "mod");
    let (app, _) = app.respond(Press::Esc, 20);
    assert_eq!(app.input.filter.query, "");
    assert!(!app.should_quit);
    let (app, _) = app.respond(Press::Esc, 20);
    assert!(app.should_quit);
}

#[test]
fn control_c_quits_whatever_is_bound() {
    let config = parse("[keys]\nctrl-c = \"help\"\n").unwrap();
    let app = App {
        data: Data {
            bindings: config.bindings,
            ..started().data
        },
        ..started()
    };
    let interrupt = Press::Key {
        code: Key::Char('c'),
        modifiers: Modifiers::control(),
    };
    assert_eq!(app.step_for(interrupt, 20), Step::Quit);
    let (app, _) = app.respond(interrupt, 20);
    assert!(app.should_quit);
}

#[test]
fn the_scrolling_keys_move_the_key_reference_while_it_is_up() {
    let app = App {
        view: View {
            show_help: true,
            ..started().view
        },
        ..started()
    };
    assert_eq!(app.step_for(press('J'), 20), Step::ScrollHelp(1));
    assert_eq!(app.step_for(press('b'), 20), Step::ScrollHelp(-18));
    assert_eq!(app.step_for(press('G'), 20), Step::ScrollHelpTo(true));
    let (app, _) = app.respond(press('f'), 20);
    assert_eq!(app.view.help_scroll, 13);
}

#[test]
fn a_key_that_needs_something_from_outside_says_what() {
    for (c, task) in [
        ('m', Task::ToggleBase),
        ('w', Task::ToggleScope),
        ('H', Task::ToggleHistory),
        ('S', Task::ToggleStashes),
        ('W', Task::ToggleBranches),
        ('L', Task::ToggleGraph),
        ('D', Task::RemoveAnnotation),
        ('R', Task::SendReview),
        ('e', Task::OpenEditor),
        ('c', Task::BeginPrompt),
        ('Y', Task::GitMenu),
    ] {
        assert_eq!(started().respond(press(c), 20).1, Some(task), "{c}");
    }
    assert_eq!(started().respond(press('z'), 20).1, None);
    assert_eq!(started().respond(Press::Other, 20).1, None);
}

#[test]
fn a_list_owns_its_keys_and_still_lets_q_quit() {
    let app = reading().toggle_graph(vec![graph::Row::Connector {
        rail: "|".to_string(),
    }]);
    assert_eq!(app.step_for(press('j'), 20), Step::RevisionsNext);
    assert_eq!(app.step_for(press('S'), 20), Step::CloseRevisions);
    assert_eq!(app.step_for(press('q'), 20), Step::Quit);
    let (app, _) = app.respond(Press::Esc, 20);
    assert!(app.view.revisions.is_none());
}

#[test]
fn the_menu_of_writes_reads_one_key() {
    assert_eq!(menu_for(press('c')), Menu::Commit);
    assert_eq!(menu_for(press('s')), Menu::Stage);
    assert_eq!(menu_for(press('u')), Menu::Unstage);
    assert_eq!(menu_for(press('t')), Menu::Stash);
    assert_eq!(menu_for(press('l')), Menu::Lazygit);
    assert_eq!(menu_for(Press::Esc), Menu::Nothing);
    assert!(said(&started().with_git_menu()).contains("c commit"));
}

#[test]
fn what_another_program_did_is_read_again() {
    assert!(started().with_lazygit_closed(Lazygit::Ran).data.scanning);
    assert_eq!(
        said(&started().with_lazygit_closed(Lazygit::NotInstalled)),
        "lazygit is not installed"
    );
    assert_eq!(
        said(&started().with_lazygit_closed(Lazygit::Failed("boom".to_string()))),
        "could not run lazygit: boom"
    );
    assert_eq!(started().lazygit_root().as_deref(), Some("/repo/api"));

    let ended = |success, code| started().with_editor_closed(Ok(Exit { success, code }));
    assert!(ended(true, Some(0)).data.scanning);
    assert_eq!(said(&ended(false, Some(1))), "editor exited with status 1");
    assert_eq!(
        said(&ended(false, None)),
        "editor exited with status signal"
    );
}

#[test]
fn a_project_is_put_together_from_what_git_answered() {
    let answers = |strays| Answers {
        branch: Ok(b"main\n".to_vec()),
        commit: Err(GitError::NotARepository),
        upstream: Ok(b"1\t2\n".to_vec()),
        strays,
        tracked_files: Ok(b"a.rs\0b.rs\0".to_vec()),
        times: vec![Some(5)],
    };
    let project = Project {
        root: "/repo/api".to_string(),
        name: "api".to_string(),
    };
    let read = load_project(
        project.clone(),
        true,
        &helper(),
        &vec![agent::AgentStatus::Idle],
        answers(Ok(files(&["b.rs"]))),
    );
    assert_eq!(read.branch.as_deref(), Some("main"));
    assert_eq!(read.upstream.unwrap().ahead, 2);
    assert_eq!(read.agent, Some(agent::AgentStatus::Idle));
    assert_eq!(read.touched, Some(5));
    assert_eq!(read.strays[0], Stray::new(StrayStatus::Unchanged, "a.rs"));
    assert_eq!(read.strays[1], Stray::new(StrayStatus::Modified, "b.rs"));

    let broken = load_project(
        project,
        false,
        &Vec::new(),
        &Vec::new(),
        answers(Err(GitError::NotARepository)),
    );
    assert!(broken.strays.is_empty());
    assert_eq!(
        broken.error.as_deref(),
        Some("not a git repository — open strays inside a worktree")
    );
}

#[test]
fn without_a_tracked_list_the_strays_are_still_right() {
    let strays = files(&["b.rs"]);
    assert_eq!(
        merge_tracked(strays.clone(), Err(GitError::NotARepository)),
        strays
    );
    let times = vec![None, Some(3), Some(9), Some(4)];
    let mut all = files(&["a", "b", "c", "d"]);
    all[2].status = StrayStatus::Unchanged;
    assert_eq!(most_recent_change(&all, &times), Some(4));
}

#[test]
fn a_refresh_leaves_what_is_being_typed_alone() {
    let app = reading()
        .with_diff_loaded(Ok(added(&["@@ -0,0 +1 @@", "+let a = 1;"])))
        .cursor_down()
        .begin_annotation()
        .annotation_push('x');
    let app = app.refresh_silently();
    assert_eq!(app.input.annotating.as_ref().unwrap().text, "x");
    assert_eq!(app.refresh().input.annotating.unwrap().text, "x");
}

#[test]
fn whatever_is_pressed_the_cursor_is_on_the_list_and_one_line_is_open_at_most() {
    let keys = "jj/ab\u{8}jkRmVBsbeta?Gg?nNAxWYzqcD";
    let mut app = reading();
    for c in keys.chars() {
        let pressed = if c == '\u{8}' {
            Press::Key {
                code: Key::Backspace,
                modifiers: Modifiers::none(),
            }
        } else {
            press(c)
        };
        app = app.respond(pressed, 20).0;
        assert!(
            app.view.rows.is_empty() || app.view.selected < app.view.rows.len(),
            "after {c}"
        );
        let open = [
            app.input.search.editing,
            app.input.filter.editing,
            app.input.annotating.is_some(),
            app.input.prompt.is_some(),
            app.input.delegating.is_some(),
        ];
        assert!(open.iter().filter(|o| **o).count() <= 1, "after {c}");
        let rows = herdr_strays::tree::flatten_filtered(
            &app.data.projects,
            &app.view.collapsed,
            &app.input.filter.query,
        );
        assert_eq!(app.view.rows, rows, "after {c}");
    }
}

#[test]
fn folding_twice_changes_nothing() {
    let app = started().with_project_scanned(scanned(
        "/repo/api",
        files(&["a.rs", "src/app/x.rs", "src/app/y.rs", "src/z.rs", "t/u.rs"]),
    ));
    for selected in 0..app.view.rows.len() {
        let before = App {
            view: View {
                selected,
                ..app.view.clone()
            },
            ..app.clone()
        };
        let row = before.view.rows[selected];
        let between = before.clone().toggle_collapsed();
        assert_eq!(between.view.selected, selected);
        assert_eq!(between.view.rows[selected], row);
        assert_eq!(row.is_file(), between.view.rows == before.view.rows);
        let after = between.toggle_collapsed();
        assert_eq!(after.view.collapsed, before.view.collapsed);
        assert_eq!(after.view.rows, before.view.rows);
        assert_eq!(after.view.selected, before.view.selected);
    }
}

#[test]
fn each_list_asks_git_about_its_own_entries() {
    let named = |name: &str| name.to_string();
    let list = Revisions {
        kind: RevisionList::History {
            path: named("a.rs"),
            entries: history::parse(b"aaaa\x00aa\x00Ada\x001\x00one\x00"),
        },
        selected: 0,
    };
    assert_eq!(
        list.questions(),
        (
            Some(Query::Parent {
                name: named("aaaa^")
            }),
            Some(Query::Verify {
                name: named("aaaa^")
            })
        )
    );
    let past = Revisions {
        selected: 1,
        ..list
    };
    assert_eq!(past.questions(), (None, None));

    let sample = b"main\x00aa\x00Ada\x001\x00\x00\x00*\x00s\x00\ntopic\x00bb\x00Ada\x001\x00\x00\x00 \x00s\x00";
    let branches = |selected: usize| Revisions {
        kind: RevisionList::Branches {
            entries: branch::parse(sample),
        },
        selected,
    };
    assert_eq!(branches(0).questions(), (None, None));
    assert_eq!(
        branches(1).questions(),
        (
            None,
            Some(Query::MeetingBranch {
                name: named("topic")
            })
        )
    );
}
