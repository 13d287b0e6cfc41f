//! The repositories that herdr has open.

use herdr_strays::discover::{
    open_panes, parse_pane_cwds, parse_workspace_labels, projects_from, Labels, PaneCwd, Project,
    Scope,
};

/// `herdr pane list` output as herdr 0.7.3 shapes it, trimmed to the fields this
/// module reads.
const PANE_LIST: &str = r#"{"id":"cli:pane:list","result":{"panes":[
{"agent":"helper","agent_status":"working","cwd":"/repo/api","focused":true,"foreground_cwd":"/","pane_id":"w3:p1","tab_id":"w3:t1","workspace_id":"w3"},
{"agent_status":"unknown","cwd":"/repo/api","focused":false,"foreground_cwd":"/repo/api","pane_id":"w3:p3","tab_id":"w3:t3","workspace_id":"w3"},
{"agent":"helper","agent_status":"idle","cwd":"/repo/web","focused":false,"foreground_cwd":"/repo/web","pane_id":"w4:p1","tab_id":"w4:t1","workspace_id":"w4"}
],"type":"pane_list"}}"#;

/// `herdr workspace list` output for the same workspaces. Note the
/// complete absence of any path field — the reason panes are used at all.
const WORKSPACE_LIST: &str = r#"{"id":"cli:workspace:list","result":{"type":"workspace_list","workspaces":[
{"active_tab_id":"w3:t1","agent_status":"working","focused":true,"label":"api","number":1,"pane_count":3,"tab_count":3,"workspace_id":"w3"},
{"active_tab_id":"w4:t1","agent_status":"idle","focused":false,"label":"web","number":2,"pane_count":1,"tab_count":1,"workspace_id":"w4"}
]}}"#;

#[test]
fn reads_a_cwd_for_every_pane() {
    let panes = parse_pane_cwds(PANE_LIST);
    assert_eq!(panes.len(), 3);
    assert_eq!(panes[0].cwd, "/repo/api".to_string());
    assert_eq!(panes[0].workspace_id, "w3");
}

#[test]
fn prefers_pane_cwd_over_foreground_cwd() {
    // The first pane's foreground_cwd is "/" because a process cd'd away.
    // Following it would lose the project entirely.
    let panes = parse_pane_cwds(PANE_LIST);
    assert_eq!(panes[0].cwd, "/repo/api".to_string());
}

#[test]
fn reads_every_workspace_label() {
    let labels = parse_workspace_labels(WORKSPACE_LIST);
    assert_eq!(labels.get("w3").map(String::as_str), Some("api"));
    assert_eq!(labels.get("w4").map(String::as_str), Some("web"));
}

#[test]
fn panes_sharing_a_repository_collapse_into_one_project() {
    // Two panes in one repository must not yield two projects.
    let panes = parse_pane_cwds(PANE_LIST);
    let api: Vec<_> = panes
        .iter()
        .filter(|p| p.cwd == "/repo/api")
        .collect();
    assert_eq!(api.len(), 2, "fixture should have two panes in one repo");
}

#[test]
fn a_repository_under_one_workspace_takes_its_label() {
    let panes = vec![PaneCwd {
        workspace_id: "w3".into(),
        cwd: "/tmp/does-not-resolve".to_string(),
    }];
    let mut labels = Labels::new();
    labels.insert("w3".to_string(), "api".to_string());

    // The cwd does not resolve to a repo, so nothing is produced — this
    // asserts the non-repo path is silently skipped, not fatal.
    assert!(projects_from(&panes, &vec![None], &labels).is_empty());
}

#[test]
fn empty_response_yields_no_projects() {
    assert!(parse_pane_cwds("").is_empty());
    assert!(parse_workspace_labels("").is_empty());
}

#[test]
fn malformed_response_is_ignored_rather_than_fatal() {
    assert!(parse_pane_cwds("{\"garbage\":true}").is_empty());
}

#[test]
fn a_path_containing_a_quote_is_unescaped() {
    // Wrapped in the real envelope: records are located by nesting depth,
    // so a bare object would not be seen as one.
    let json = r#"{"id":"x","result":{"panes":[
{"cwd":"/repo/we\"rd","pane_id":"w1:p1","workspace_id":"w1"}
],"type":"pane_list"}}"#;
    let panes = parse_pane_cwds(json);
    assert_eq!(panes.len(), 1);
    assert_eq!(panes[0].cwd, "/repo/we\"rd".to_string());
}

#[test]
fn nested_objects_inside_a_pane_are_not_mistaken_for_records() {
    // `agent_session` and `scroll` sit one level deeper than a pane record.
    // Counting them would invent projects that do not exist.
    let json = r#"{"id":"x","result":{"panes":[
{"agent_session":{"kind":"id","value":"abc"},"cwd":"/repo/a","pane_id":"w1:p1","scroll":{"offset_from_bottom":0},"workspace_id":"w1"}
],"type":"pane_list"}}"#;
    let panes = parse_pane_cwds(json);
    assert_eq!(panes.len(), 1, "one pane, not three");
    assert_eq!(panes[0].cwd, "/repo/a".to_string());
}

#[test]
fn a_brace_inside_a_path_does_not_split_a_record() {
    let json = r#"{"id":"x","result":{"panes":[
{"cwd":"/repo/{weird}","pane_id":"w1:p1","workspace_id":"w1"}
],"type":"pane_list"}}"#;
    let panes = parse_pane_cwds(json);
    assert_eq!(panes.len(), 1);
    assert_eq!(panes[0].cwd, "/repo/{weird}".to_string());
}

#[test]
fn one_root_is_one_project_named_by_its_workspace() {
    let panes = parse_pane_cwds(PANE_LIST);
    let labels = parse_workspace_labels(WORKSPACE_LIST);
    let roots = vec![
        Some("/repo/api".to_string()),
        Some("/repo/api".to_string()),
        Some("/repo/web".to_string()),
    ];

    let projects = projects_from(&panes, &roots, &labels);
    assert_eq!(
        projects,
        vec![
            Project {
                root: "/repo/api".to_string(),
                name: "api".to_string()
            },
            Project {
                root: "/repo/web".to_string(),
                name: "web".to_string()
            },
        ]
    );
}

#[test]
fn a_repository_under_two_workspaces_goes_by_its_directory() {
    let panes = vec![
        PaneCwd {
            workspace_id: "w3".into(),
            cwd: "/repo/core".into(),
        },
        PaneCwd {
            workspace_id: "w4".into(),
            cwd: "/repo/core/src".into(),
        },
    ];
    let labels = parse_workspace_labels(WORKSPACE_LIST);
    let roots = vec![Some("/repo/core".to_string()), Some("/repo/core".to_string())];

    let projects = projects_from(&panes, &roots, &labels);
    assert_eq!(projects.len(), 1);
    assert_eq!(projects[0].name, "core");
}

#[test]
fn a_narrow_scope_leaves_the_other_workspaces_out() {
    let scope = Scope::CurrentWorkspace("w4".to_string());
    let panes = open_panes(&scope, Some(PANE_LIST));
    assert_eq!(panes.len(), 1);
    assert_eq!(panes[0].cwd, "/repo/web");
    assert_eq!(open_panes(&Scope::AllWorkspaces, Some(PANE_LIST)).len(), 3);
    assert!(open_panes(&Scope::AllWorkspaces, None).is_empty());
}

#[test]
fn the_scope_comes_from_the_environment_and_toggles() {
    assert_eq!(Scope::from_env(None), Scope::AllWorkspaces);
    let here = Scope::from_env(Some("w3".to_string()));
    assert_eq!(here, Scope::CurrentWorkspace("w3".to_string()));
    assert!(here.toggled(Some("w3")).is_all());
    assert_eq!(Scope::AllWorkspaces.toggled(Some("w3")), here);
    assert!(Scope::AllWorkspaces.toggled(None).is_all());
}
