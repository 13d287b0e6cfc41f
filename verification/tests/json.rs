//! The machine-readable view of what the viewer knows.

use herdr_strays::agent::AgentStatus;
use herdr_strays::annotate::{Anchor, Annotation, Annotations, Kind};
use herdr_strays::discover::Project;
use herdr_strays::forge::{Ci, ForgeStatus, PrComment, Review, Tests};
use herdr_strays::git::base::Base;
use herdr_strays::json::{run, ForgeAnswers, Options, Report};
use herdr_strays::model::{Stray, StrayStatus, Upstream};
use herdr_strays::tree::ProjectStrays;

/// A command line, word by word.
fn arguments(words: &[&str]) -> Vec<String> {
    words.iter().map(|w| w.to_string()).collect()
}

fn project(name: &str) -> Project {
    Project {
        root: format!("/repo/{name}"),
        name: name.to_string(),
    }
}

fn scanned(strays: Vec<Stray>) -> ProjectStrays {
    ProjectStrays {
        project: project("api"),
        strays,
        branch: Some("main".into()),
        upstream: None,
        touched: None,
        agent: None,
        error: None,
    }
}

/// No forge was asked, which is what every test that is not about the
/// forge wants. Named so those call sites read as "nothing from a forge"
/// rather than as an empty container that happens to be there.
fn unasked() -> ForgeAnswers {
    ForgeAnswers::new()
}

/// Parse the report back, so assertions are about the document a consumer
/// sees rather than about the string this module happened to build.
fn rendered(report: &Report) -> serde_json::Value {
    let text = report.render().expect("the report must serialize");
    serde_json::from_str(&text).expect("the report must parse back")
}

#[test]
fn a_run_without_json_starts_the_viewer() {
    assert_eq!(Options::parse(&Vec::new()).unwrap(), None);
}

#[test]
fn the_sections_are_off_until_asked_for() {
    let options = Options::parse(&arguments(&["--json"])).unwrap().expect("--json");
    assert!(!options.annotations);
    assert!(!options.agents);
}

#[test]
fn both_sections_can_be_asked_for_at_once() {
    let options = Options::parse(&arguments(&["--json", "--annotations", "--agents"]))
        .unwrap()
        .expect("--json");
    assert!(options.annotations);
    assert!(options.agents);
}

#[test]
fn an_unknown_argument_is_refused_rather_than_ignored() {
    // The near-miss that matters: ignoring it would print a report silently
    // missing the section it was asked for.
    let refused = Options::parse(&arguments(&["--json", "--annotation"]));
    assert!(refused.is_err(), "got {refused:?}");
}

#[test]
fn a_section_switch_alone_is_refused() {
    // Without `--json` there is no document for it to add a section to, so
    // this is a mistake rather than a request to start the TUI.
    assert!(Options::parse(&arguments(&["--annotations"])).is_err());
}

#[test]
fn a_stray_reports_its_path_and_status() {
    let projects = vec![scanned(vec![Stray::new(
        StrayStatus::Modified,
        "src/main.rs",
    )])];
    let base = Base::Head;
    let forge = unasked();
    let report = Report::of(&projects, &Vec::new(), &base, false, Options::default(), &forge);

    let value = rendered(&report);
    let stray = &value["projects"][0]["strays"][0];
    assert_eq!(stray["path"], "src/main.rs");
    assert_eq!(stray["status"], "modified");
    assert_eq!(stray["changed"], true);
}

#[test]
fn a_rename_says_where_it_came_from() {
    // The old path is the whole content of a rename; without it the entry
    // is indistinguishable from an addition.
    let projects = vec![scanned(vec![Stray::new(
        StrayStatus::Renamed {
            from: "src/old.rs".into(),
        },
        "src/new.rs",
    )])];
    let base = Base::Head;
    let forge = unasked();
    let report = Report::of(&projects, &Vec::new(), &base, false, Options::default(), &forge);

    let value = rendered(&report);
    let stray = &value["projects"][0]["strays"][0];
    assert_eq!(stray["status"], "renamed");
    assert_eq!(stray["renamed_from"], "src/old.rs");
}

#[test]
fn an_unchanged_file_is_marked_as_such() {
    // Under `--show-all` the list carries files that did not stray. A
    // consumer filtering for real work needs to tell them apart.
    let projects = vec![scanned(vec![Stray::new(
        StrayStatus::Unchanged,
        "src/a.rs",
    )])];
    let base = Base::Head;
    let forge = unasked();
    let report = Report::of(&projects, &Vec::new(), &base, true, Options::default(), &forge);

    let value = rendered(&report);
    assert_eq!(value["show_all"], true);
    assert_eq!(value["projects"][0]["strays"][0]["changed"], false);
}

#[test]
fn a_project_that_could_not_be_read_says_so_rather_than_looking_clean() {
    let broken = ProjectStrays {
        error: Some("not a git repository".into()),
        ..scanned(Vec::new())
    };
    let base = Base::Head;
    let projects = vec![broken];
    let forge = unasked();
    let report = Report::of(&projects, &Vec::new(), &base, false, Options::default(), &forge);

    let value = rendered(&report);
    let project = &value["projects"][0];
    assert_eq!(project["error"], "not a git repository");
    assert!(
        project["strays"].as_array().expect("strays").is_empty(),
        "a repository that failed to read has nothing to list"
    );
}

#[test]
fn upstream_distance_is_reported_when_the_branch_tracks_something() {
    let tracking = ProjectStrays {
        upstream: Some(Upstream {
            ahead: 2,
            behind: 3,
        }),
        ..scanned(Vec::new())
    };
    let base = Base::Head;
    let projects = vec![tracking];
    let forge = unasked();
    let report = Report::of(&projects, &Vec::new(), &base, false, Options::default(), &forge);

    let value = rendered(&report);
    assert_eq!(value["projects"][0]["upstream"]["ahead"], 2);
    assert_eq!(value["projects"][0]["upstream"]["behind"], 3);
}

#[test]
fn the_agent_section_is_absent_until_asked_for() {
    let working = ProjectStrays {
        agent: Some(AgentStatus::Working),
        ..scanned(Vec::new())
    };
    let base = Base::Head;

    let forge = unasked();
    let quiet = Report::of(
        &vec![working.clone()],
        &Vec::new(),
        &base,
        false,
        Options::default(),
        &forge,
    );
    assert!(
        rendered(&quiet)["projects"][0].get("agent").is_none(),
        "no --agents, no agent key"
    );

    let asked = Report::of(
        &vec![working.clone()],
        &Vec::new(),
        &base,
        false,
        Options {
            agents: true,
            ..Options::default()
        },
        &forge,
    );
    assert_eq!(
        rendered(&asked)["projects"][0]["agent"]["status"],
        "working"
    );
}

#[test]
fn an_unmodelled_agent_state_reaches_the_output_verbatim() {
    // The same reason the viewer keeps it: flattening an unknown state to
    // "idle" would claim an agent is waiting when herdr did not say so.
    let odd = ProjectStrays {
        agent: Some(AgentStatus::Unknown("compacting".into())),
        ..scanned(Vec::new())
    };
    let base = Base::Head;
    let projects = vec![odd];
    let forge = unasked();
    let report = Report::of(
        &projects,
        &Vec::new(),
        &base,
        false,
        Options {
            agents: true,
            ..Options::default()
        },
        &forge,
    );

    assert_eq!(
        rendered(&report)["projects"][0]["agent"]["status"],
        "compacting"
    );
}

#[test]
fn the_annotations_section_is_absent_until_asked_for() {
    let notes = Annotations::new().with(Annotation {
        anchor: Anchor {
            file: "src/main.rs".into(),
            line: 12,
            hash: 0,
        },
        kind: Kind::Issue,
        text: "this leaks".into(),
    });
    let projects = vec![scanned(Vec::new())];
    let base = Base::Head;

    let recorded = vec![notes];
    let forge = unasked();
    let quiet = Report::of(
        &projects,
        &recorded,
        &base,
        false,
        Options::default(),
        &forge,
    );
    assert!(
        rendered(&quiet)["projects"][0].get("annotations").is_none(),
        "no --annotations, no annotations key"
    );

    let asked = Report::of(
        &projects,
        &recorded,
        &base,
        false,
        Options {
            annotations: true,
            ..Options::default()
        },
        &forge,
    );
    let value = rendered(&asked);
    let note = &value["projects"][0]["annotations"][0];
    assert_eq!(note["file"], "src/main.rs");
    assert_eq!(note["line"], 12);
    assert_eq!(note["kind"], "issue");
    assert_eq!(note["text"], "this leaks");
}

#[test]
fn a_project_with_no_notes_reports_an_empty_list_under_annotations() {
    // Rather than omitting the key: asked for the section, a consumer should
    // find it everywhere and not have to treat "absent" as "none".
    let projects = vec![scanned(Vec::new())];
    let base = Base::Head;
    let forge = unasked();
    let report = Report::of(
        &projects,
        &Vec::new(),
        &base,
        false,
        Options {
            annotations: true,
            ..Options::default()
        },
        &forge,
    );

    let value = rendered(&report);
    assert!(value["projects"][0]["annotations"]
        .as_array()
        .expect("annotations must be a list")
        .is_empty());
}

#[test]
fn a_path_with_a_quote_survives_the_round_trip() {
    // The reason this module uses serde rather than building the string by
    // hand: a filename may contain anything the filesystem allows.
    let awkward = r#"src/we"ird\path.rs"#;
    let projects = vec![scanned(vec![Stray::new(StrayStatus::Modified, awkward)])];
    let base = Base::Head;
    let forge = unasked();
    let report = Report::of(&projects, &Vec::new(), &base, false, Options::default(), &forge);

    let back = rendered(&report);
    assert_eq!(back["projects"][0]["strays"][0]["path"], awkward);
}

#[test]
fn the_base_is_named_in_the_report() {
    let projects = vec![scanned(Vec::new())];
    let base = Base::MergeBase {
        name: "origin/main".into(),
        commit: "abc123".into(),
    };
    let forge = unasked();
    let report = Report::of(&projects, &Vec::new(), &base, false, Options::default(), &forge);

    assert_eq!(rendered(&report)["base"], "origin/main");
}

/// What the forge said, keyed by the project it was asked about.
fn asked(status: ForgeStatus) -> ForgeAnswers {
    let mut answers = ForgeAnswers::new();
    answers.insert(project("api").root, status);
    answers
}

#[test]
fn the_forge_section_is_absent_until_asked_for() {
    let projects = vec![scanned(Vec::new())];
    let base = Base::Head;
    let answers = asked(ForgeStatus {
        ci: Ci::Passed,
        ..Default::default()
    });

    let quiet = Report::of(&projects, &Vec::new(), &base, false, Options::default(), &answers);
    assert!(
        rendered(&quiet)["projects"][0].get("forge").is_none(),
        "no --forge, no forge key"
    );

    let report = Report::of(
        &projects,
        &Vec::new(),
        &base,
        false,
        Options {
            forge: true,
            ..Options::default()
        },
        &answers,
    );
    assert_eq!(rendered(&report)["projects"][0]["forge"]["ci"], "passed");
}

#[test]
fn a_repository_the_forge_said_nothing_about_reports_null() {
    // The panel draws nothing here, and the report has to make the same
    // distinction: "nobody knows" must not serialize as "nothing is wrong".
    let projects = vec![scanned(Vec::new())];
    let base = Base::Head;
    let forge = unasked();
    let report = Report::of(
        &projects,
        &Vec::new(),
        &base,
        false,
        Options {
            forge: true,
            ..Options::default()
        },
        &forge,
    );

    let value = rendered(&report);
    assert!(
        value["projects"][0]["forge"].is_null(),
        "unasked must be null, got {}",
        value["projects"][0]["forge"]
    );
}

#[test]
fn the_forge_section_carries_what_the_panel_draws() {
    let projects = vec![scanned(Vec::new())];
    let base = Base::Head;
    let answers = asked(ForgeStatus {
        ci: Ci::Failed,
        open_prs: Some(3),
        review: Some(Review {
            comments: 4,
            changes_requested: true,
        }),
        comments: vec![PrComment {
            file: "src/main.rs".to_string(),
            line: 12,
            author: "ada".into(),
            body: "this leaks".into(),
        }],
        tests: Tests::Failed,
    });

    let report = Report::of(
        &projects,
        &Vec::new(),
        &base,
        false,
        Options {
            forge: true,
            ..Options::default()
        },
        &answers,
    );

    let forge = &rendered(&report)["projects"][0]["forge"];
    assert_eq!(forge["ci"], "failed");
    assert_eq!(forge["tests"], "failed");
    assert_eq!(forge["open_prs"], 3);
    assert_eq!(forge["review"]["comments"], 4);
    assert_eq!(forge["review"]["changes_requested"], true);
    assert_eq!(forge["comments"][0]["file"], "src/main.rs");
    assert_eq!(forge["comments"][0]["line"], 12);
    assert_eq!(forge["comments"][0]["author"], "ada");
    assert_eq!(forge["comments"][0]["body"], "this leaks");
}

#[test]
fn unknown_test_results_are_not_reported_as_passing() {
    // `Tests::Unknown` means the run's steps could not be classified. A
    // consumer reading "passed" there would act on a guess.
    let projects = vec![scanned(Vec::new())];
    let base = Base::Head;
    let answers = asked(ForgeStatus {
        ci: Ci::Failed,
        ..Default::default()
    });

    let report = Report::of(
        &projects,
        &Vec::new(),
        &base,
        false,
        Options {
            forge: true,
            ..Options::default()
        },
        &answers,
    );

    let forge = &rendered(&report)["projects"][0]["forge"];
    assert_eq!(forge["tests"], "unknown");
    assert!(forge["open_prs"].is_null());
    assert!(forge["review"].is_null());
    assert_eq!(
        forge["comments"],
        serde_json::Value::Array(Vec::new()),
        "no comments is an empty list, not null"
    );
}

#[test]
fn the_forge_switch_needs_json_like_the_others() {
    assert!(Options::parse(&arguments(&["--forge"])).is_err());
    let options = Options::parse(&arguments(&["--json", "--forge"]))
        .unwrap()
        .expect("--json");
    assert!(options.forge);
}

#[test]
fn the_keys_stand_in_the_order_they_are_promised() {
    let report = Report::of(
        &vec![scanned(Vec::new())],
        &Vec::new(),
        &Base::Head,
        false,
        Options::default(),
        &unasked(),
    );
    let text = report.render().unwrap();
    let at = |key: &str| text.find(key).unwrap_or_else(|| panic!("{key} missing"));

    assert!(at("\"version\"") < at("\"base\""));
    assert!(at("\"base\"") < at("\"show_all\""));
    assert!(at("\"show_all\"") < at("\"projects\""));
    assert!(text.contains("\"version\": 1"), "got {text}");
}

#[test]
fn a_run_reports_against_the_last_commit() {
    let text = run(
        &vec![scanned(Vec::new())],
        &Vec::new(),
        Options::default(),
        &unasked(),
    )
    .unwrap();
    let value: serde_json::Value = serde_json::from_str(&text).unwrap();
    assert_eq!(value["base"], "HEAD");
    assert_eq!(value["show_all"], false);
}

#[test]
fn the_refusals_name_what_was_wrong() {
    assert_eq!(
        Options::parse(&arguments(&["--json", "--annotation"])).unwrap_err(),
        "unknown argument: --annotation"
    );
    assert_eq!(
        Options::parse(&arguments(&["--agents"])).unwrap_err(),
        "--annotations, --agents and --forge need --json"
    );
}

#[test]
fn two_runs_over_an_unchanged_worktree_write_the_same_text() {
    let options = Options {
        annotations: true,
        agents: true,
        forge: true,
    };
    let once = || {
        run(
            &vec![scanned(vec![Stray::new(StrayStatus::Untracked, "b\"c.rs")])],
            &vec![Annotations::new()],
            options,
            &unasked(),
        )
        .unwrap()
    };
    assert_eq!(once(), once());
    assert!(once().contains("b\\\"c.rs"));
}
