//! Everything that git is asked.

use herdr_strays::git::base::Base;
use herdr_strays::git::query::Query;

fn asked(query: Query) -> String {
    query.arguments().join(" ")
}

#[test]
fn every_question_is_asked_as_it_should_be() {
    assert_eq!(asked(Query::Root), "rev-parse --show-toplevel");
    assert_eq!(
        asked(Query::Status),
        "status --porcelain=v2 -z --untracked-files=all"
    );
    assert_eq!(
        asked(Query::NameStatus {
            rev: "abc".to_string()
        }),
        "diff --name-status -z abc --"
    );
    assert_eq!(asked(Query::Files), "ls-files -z");
    assert_eq!(asked(Query::Branch), "symbolic-ref --quiet --short HEAD");
    assert_eq!(asked(Query::Commit), "rev-parse --short HEAD");
    assert_eq!(
        asked(Query::Upstream),
        "rev-list --count --left-right @{u}...HEAD"
    );
    assert_eq!(
        asked(Query::UpstreamName),
        "rev-parse --abbrev-ref --symbolic-full-name @{u}"
    );
    assert_eq!(
        asked(Query::Verify {
            name: "main".to_string()
        }),
        "rev-parse --verify --quiet main^{commit} --"
    );
    assert_eq!(
        asked(Query::Parent {
            name: "abc^".to_string()
        }),
        "rev-parse --verify --quiet abc^"
    );
    assert_eq!(
        asked(Query::Meeting {
            name: "main".to_string()
        }),
        "merge-base HEAD main"
    );
    assert_eq!(
        asked(Query::MeetingBranch {
            name: "main".to_string()
        }),
        "merge-base HEAD main --"
    );
    assert_eq!(
        asked(Query::Diff {
            rev: "HEAD".to_string(),
            path: "--squash".to_string()
        }),
        "diff HEAD -- --squash"
    );
    assert_eq!(asked(Query::Remote), "remote get-url origin");
}

#[test]
fn the_lists_are_asked_for_no_further_than_they_are_read() {
    assert!(asked(Query::History {
        path: "a.rs".to_string(),
        max_commits: 200
    })
    .starts_with("log --follow -200 "));
    assert!(asked(Query::Graph { max_commits: 7 }).starts_with("log --graph -7 "));
    assert!(asked(Query::Stashes).starts_with("stash list "));
    assert!(asked(Query::Branches).ends_with("refs/heads/"));
}

#[test]
fn blame_names_a_revision_only_where_there_is_one() {
    let at = |base| {
        asked(Query::Blame {
            path: "a.rs".to_string(),
            base,
        })
    };
    assert_eq!(at(Base::Head), "blame --porcelain -w -- a.rs");
    assert_eq!(
        at(Base::Revision {
            name: "main".to_string(),
            commit: "abc".to_string()
        }),
        "blame --porcelain -w abc -- a.rs"
    );
}
