//! What a report tells a script.

use vstd::prelude::*;
use vstd::string::*;

use crate::annotate::{Annotation, Annotations, Kind};
use crate::document::{optional_doc, reads_as, written, Doc};
use crate::forge::{Ci, ForgeAnswers, ForgeStatus, PrComment, Tests};
use crate::json::{
    agent_doc, comment_doc, count_doc, forge_doc, maybe_review_doc, note_doc, notes_at,
    ordinary_report, project_doc, report_doc, reports_comment, reports_forge, reports_note,
    reports_project, reports_stray, stray_doc, upstream_doc, writes_report, AnnotationReport,
    ForgeReport, Options, PrCommentReport, ProjectReport, Report, StrayReport,
};
use crate::model::{Stray, StrayStatus};
use crate::paths::{parts, slashed};
use crate::text::text_view;
use crate::tree::ProjectStrays;

verus! {

/// Whether something stands under a key among the members of an object.
pub open spec fn has_member(
    members: Seq<(Seq<char>, Doc)>,
    key: Seq<char>,
    value: Doc,
) -> bool {
    exists|i: int|
        0 <= i < members.len() && (#[trigger] members[i]).0 == key && members[i].1 == value
}

/// Whether nothing stands under a key among the members of an object.
pub open spec fn has_none(members: Seq<(Seq<char>, Doc)>, key: Seq<char>) -> bool {
    forall|i: int| 0 <= i < members.len() ==> (#[trigger] members[i]).0 != key
}

/// Whether an object has something under a key.
pub open spec fn tells(d: Doc, key: Seq<char>, value: Doc) -> bool {
    match d {
        Doc::Object(members) => has_member(members, key, value),
        _ => false,
    }
}

/// Whether an object has nothing under a key.
pub open spec fn is_silent(d: Doc, key: Seq<char>) -> bool {
    match d {
        Doc::Object(members) => has_none(members, key),
        _ => false,
    }
}

/// A text or nothing, as it stands in a report.
pub open spec fn maybe(o: Option<String>) -> Doc {
    match o {
        Some(s) => Doc::Text(s@),
        None => Doc::Null,
    }
}

/// Whether a report on a file says where it is, what happened to it, and where it
/// was before it was renamed.
pub open spec fn stray_told(d: Doc, stray: Stray) -> bool {
    &&& tells(d, "path"@, Doc::Text(slashed(parts(stray.path@))))
    &&& tells(
        d,
        "status"@,
        Doc::Text(
            match stray.status {
                StrayStatus::Modified => "modified"@,
                StrayStatus::Added => "added"@,
                StrayStatus::Deleted => "deleted"@,
                StrayStatus::Untracked => "untracked"@,
                StrayStatus::Renamed { .. } => "renamed"@,
                StrayStatus::Unchanged => "unchanged"@,
                StrayStatus::Submodule => "submodule"@,
                StrayStatus::Conflicted => "conflicted"@,
            },
        ),
    )
    &&& tells(d, "changed"@, Doc::Bool(!(stray.status is Unchanged)))
    &&& stray.status matches StrayStatus::Renamed { from } ==> tells(
        d,
        "renamed_from"@,
        Doc::Text(slashed(parts(from@))),
    )
}

/// Whether a report on a remark says where it was made, by whom, and its words.
pub open spec fn comment_told(d: Doc, c: PrComment) -> bool {
    &&& tells(d, "file"@, Doc::Text(slashed(parts(c.file@))))
    &&& tells(d, "line"@, Doc::Number(Some(c.line as u64)))
    &&& tells(d, "author"@, Doc::Text(c.author@))
    &&& tells(d, "body"@, Doc::Text(c.body@))
}

/// Whether a report on a note says where it stands, of what kind it is, and its
/// words.
pub open spec fn note_told(d: Doc, n: Annotation) -> bool {
    &&& tells(d, "file"@, Doc::Text(slashed(parts(n.anchor.file@))))
    &&& tells(d, "line"@, Doc::Number(Some(n.anchor.line as u64)))
    &&& tells(
        d,
        "kind"@,
        Doc::Text(
            match n.kind {
                Kind::Issue => "issue"@,
                Kind::Suggestion => "suggestion"@,
                Kind::Question => "question"@,
                Kind::Note => "note"@,
            },
        ),
    )
    &&& tells(d, "text"@, Doc::Text(n.text@))
}

/// Whether a report on what a forge said says how CI ended, what became of the
/// tests, how many pull requests are open, and what was said on the lines.
pub open spec fn forge_told(d: Doc, f: ForgeStatus) -> bool {
    &&& tells(
        d,
        "ci"@,
        Doc::Text(
            match f.ci {
                Ci::Unknown => "unknown"@,
                Ci::Running => "running"@,
                Ci::Passed => "passed"@,
                Ci::Failed => "failed"@,
                Ci::Neutral => "neutral"@,
            },
        ),
    )
    &&& tells(
        d,
        "tests"@,
        Doc::Text(
            match f.tests {
                Tests::Unknown => "unknown"@,
                Tests::Passed => "passed"@,
                Tests::Failed => "failed"@,
            },
        ),
    )
    &&& tells(
        d,
        "open_prs"@,
        match f.open_prs {
            Some(n) => Doc::Number(Some(n as u64)),
            None => Doc::Null,
        },
    )
    &&& exists|review: Doc| #[trigger]
        tells(d, "review"@, review) && match f.review {
            None => review is Null,
            Some(r) => tells(review, "comments"@, Doc::Number(Some(r.comments as u64))) && tells(
                review,
                "changes_requested"@,
                Doc::Bool(r.changes_requested),
            ),
        }
    &&& exists|said: Seq<Doc>| #[trigger]
        tells(d, "comments"@, Doc::List(said)) && said.len() == f.comments@.len() && forall|i: int|
            0 <= i < said.len() ==> comment_told(#[trigger] said[i], f.comments@[i])
}

/// Whether a report on a project says what was read of it, with the sections that
/// were asked for and no other.
pub open spec fn project_told(
    d: Doc,
    s: ProjectStrays,
    notes: Seq<Annotation>,
    options: Options,
    forge: ForgeAnswers,
) -> bool {
    &&& tells(d, "name"@, Doc::Text(s.project.name@))
    &&& tells(d, "root"@, Doc::Text(s.project.root@))
    &&& tells(d, "branch"@, maybe(s.branch))
    &&& tells(d, "error"@, maybe(s.error))
    &&& exists|strays: Seq<Doc>| #[trigger]
        tells(d, "strays"@, Doc::List(strays)) && strays.len() == s.strays@.len() && forall|i: int|
            0 <= i < strays.len() ==> stray_told(#[trigger] strays[i], s.strays@[i])
    &&& s.upstream matches Some(u) ==> exists|up: Doc| #[trigger]
        tells(d, "upstream"@, up) && tells(up, "ahead"@, Doc::Number(Some(u.ahead as u64))) && tells(
            up,
            "behind"@,
            Doc::Number(Some(u.behind as u64)),
        )
    &&& options.agents && s.agent is Some ==> exists|agent: Doc| #[trigger]
        tells(d, "agent"@, agent) && tells(agent, "status"@, Doc::Text(s.agent->0.word()))
    &&& options.annotations ==> exists|said: Seq<Doc>| #[trigger]
        tells(d, "annotations"@, Doc::List(said)) && said.len() == notes.len() && forall|i: int|
            0 <= i < said.len() ==> note_told(#[trigger] said[i], notes[i])
    &&& options.forge ==> match forge@.contains_key(parts(s.project.root@)) {
        true => exists|said: Doc| #[trigger]
            tells(d, "forge"@, said) && forge_told(said, forge@[parts(s.project.root@)]),
        false => tells(d, "forge"@, Doc::Null),
    }
    &&& !options.agents ==> is_silent(d, "agent"@)
    &&& !options.annotations ==> is_silent(d, "annotations"@)
    &&& !options.forge ==> is_silent(d, "forge"@)
}

proof fn lemma_last(members: Seq<(Seq<char>, Doc)>, key: Seq<char>, value: Doc)
    ensures
        tells(Doc::Object(members.push((key, value))), key, value),
{
    let all = members.push((key, value));
    assert(all[members.len() as int].0 == key);
    assert(has_member(all, key, value));
}

proof fn lemma_more(members: Seq<(Seq<char>, Doc)>, more: (Seq<char>, Doc))
    ensures
        forall|key: Seq<char>, value: Doc|
            tells(Doc::Object(members), key, value) ==> #[trigger] tells(
                Doc::Object(members.push(more)),
                key,
                value,
            ),
{
    let all = members.push(more);
    assert forall|key: Seq<char>, value: Doc|
        tells(Doc::Object(members), key, value) implies #[trigger] tells(
        Doc::Object(all),
        key,
        value,
    ) by {
        let i = choose|i: int|
            0 <= i < members.len() && (#[trigger] members[i]).0 == key && members[i].1 == value;
        assert(all[i].0 == key && all[i].1 == value);
    }
}

proof fn lemma_stray(r: StrayReport, stray: Stray)
    requires
        reports_stray(r, stray),
    ensures
        stray_told(stray_doc(r), stray),
{
    let none = Seq::<(Seq<char>, Doc)>::empty();
    let path = ("path"@, Doc::Text(r.path@));
    let status = ("status"@, Doc::Text(r.status@));
    let head = seq![path, status];
    assert(head =~= none.push(path).push(status));
    lemma_last(none, path.0, path.1);
    lemma_more(none.push(path), status);
    lemma_last(none.push(path), status.0, status.1);
    let renamed = match stray.status {
        StrayStatus::Renamed { from } => {
            let from = ("renamed_from"@, Doc::Text(slashed(parts(from@))));
            lemma_more(head, from);
            lemma_last(head, from.0, from.1);
            head.push(from)
        },
        _ => head,
    };
    let changed = ("changed"@, Doc::Bool(r.changed));
    lemma_more(renamed, changed);
    lemma_last(renamed, changed.0, changed.1);
    assert(stray_doc(r) == Doc::Object(renamed.push(changed)));
}

proof fn lemma_four(d: Doc, a: (Seq<char>, Doc), b: (Seq<char>, Doc), c: (Seq<char>, Doc), e: (Seq<char>, Doc))
    requires
        d == Doc::Object(seq![a, b, c, e]),
    ensures
        tells(d, a.0, a.1),
        tells(d, b.0, b.1),
        tells(d, c.0, c.1),
        tells(d, e.0, e.1),
{
    let members = seq![a, b, c, e];
    assert(members[0].0 == a.0 && members[1].0 == b.0 && members[2].0 == c.0 && members[3].0 == e.0);
    assert(has_member(members, a.0, a.1));
    assert(has_member(members, b.0, b.1));
    assert(has_member(members, c.0, c.1));
    assert(has_member(members, e.0, e.1));
}

proof fn lemma_comment(r: PrCommentReport, c: PrComment)
    requires
        reports_comment(r, c),
    ensures
        comment_told(comment_doc(r), c),
{
    lemma_four(
        comment_doc(r),
        ("file"@, Doc::Text(r.file@)),
        ("line"@, Doc::Number(Some(r.line as u64))),
        ("author"@, Doc::Text(r.author@)),
        ("body"@, Doc::Text(r.body@)),
    );
}

proof fn lemma_note(r: AnnotationReport, n: Annotation)
    requires
        reports_note(r, n),
    ensures
        note_told(note_doc(r), n),
{
    lemma_four(
        note_doc(r),
        ("file"@, Doc::Text(r.file@)),
        ("line"@, Doc::Number(Some(r.line as u64))),
        ("kind"@, Doc::Text(r.kind@)),
        ("text"@, Doc::Text(r.text@)),
    );
}

proof fn lemma_forge(r: ForgeReport, f: ForgeStatus)
    requires
        reports_forge(r, f),
    ensures
        forge_told(forge_doc(r), f),
{
    let d = forge_doc(r);
    let members = d->Object_0;
    let said = r.comments@.map_values(|c: PrCommentReport| comment_doc(c));
    assert(members[0] == ("ci"@, Doc::Text(r.ci@)));
    assert(members[1] == ("tests"@, Doc::Text(r.tests@)));
    assert(members[2] == ("open_prs"@, count_doc(r.open_prs)));
    assert(members[3] == ("review"@, maybe_review_doc(r.review)));
    assert(members[4] == ("comments"@, Doc::List(said)));
    let review = maybe_review_doc(r.review);
    assert(tells(d, "review"@, review));
    if let Some(x) = r.review {
        let ms = review->Object_0;
        assert(ms[0] == ("comments"@, Doc::Number(Some(x.comments as u64))));
        assert(ms[1] == ("changes_requested"@, Doc::Bool(x.changes_requested)));
    }
    assert(tells(d, "comments"@, Doc::List(said)));
    assert forall|i: int| 0 <= i < said.len() implies comment_told(
        #[trigger] said[i],
        f.comments@[i],
    ) by {
        assert(reports_comment(r.comments@[i], f.comments@[i]));
        lemma_comment(r.comments@[i], f.comments@[i]);
    }
}

/// Two members whose keys differ in length or in their first character.
proof fn lemma_keys()
    ensures
        "name"@ != "agent"@,
        "root"@ != "agent"@,
        "branch"@ != "agent"@,
        "upstream"@ != "agent"@,
        "strays"@ != "agent"@,
        "error"@ != "agent"@,
        "annotations"@ != "agent"@,
        "forge"@ != "agent"@,
        "name"@ != "annotations"@,
        "root"@ != "annotations"@,
        "branch"@ != "annotations"@,
        "upstream"@ != "annotations"@,
        "strays"@ != "annotations"@,
        "error"@ != "annotations"@,
        "forge"@ != "annotations"@,
        "name"@ != "forge"@,
        "root"@ != "forge"@,
        "branch"@ != "forge"@,
        "upstream"@ != "forge"@,
        "strays"@ != "forge"@,
        "error"@ != "forge"@,
{
    reveal_strlit("name");
    reveal_strlit("root");
    reveal_strlit("branch");
    reveal_strlit("upstream");
    reveal_strlit("strays");
    reveal_strlit("error");
    reveal_strlit("agent");
    reveal_strlit("annotations");
    reveal_strlit("forge");
    assert("name"@.len() == 4 && "root"@.len() == 4 && "branch"@.len() == 6);
    assert("upstream"@.len() == 8 && "strays"@.len() == 6 && "annotations"@.len() == 11);
    assert("agent"@.len() == 5 && "forge"@.len() == 5 && "error"@.len() == 5);
    assert("agent"@[0] == 'a' && "forge"@[0] == 'f' && "error"@[0] == 'e');
}

proof fn lemma_silent(members: Seq<(Seq<char>, Doc)>, more: (Seq<char>, Doc))
    ensures
        forall|key: Seq<char>|
            is_silent(Doc::Object(members), key) && key != more.0 ==> #[trigger] is_silent(
                Doc::Object(members.push(more)),
                key,
            ),
{
    let all = members.push(more);
    assert forall|key: Seq<char>|
        is_silent(Doc::Object(members), key) && key != more.0 implies #[trigger] is_silent(
        Doc::Object(all),
        key,
    ) by {
        assert(has_none(members, key));
        assert forall|i: int| 0 <= i < all.len() implies (#[trigger] all[i]).0 != key by {
            if i < members.len() {
                assert(members[i].0 != key);
            }
        }
        assert(has_none(all, key));
    }
}

/// The members of a project's report that are always there.
spec fn read_members(r: ProjectReport) -> Seq<(Seq<char>, Doc)> {
    let head = seq![
        ("name"@, Doc::Text(r.name@)),
        ("root"@, Doc::Text(r.root@)),
        ("branch"@, optional_doc(text_view(r.branch))),
    ];
    let up = match r.upstream {
        Some(u) => head.push(("upstream"@, upstream_doc(u))),
        None => head,
    };
    up.push(("strays"@, Doc::List(r.strays@.map_values(|s: StrayReport| stray_doc(s))))).push(
        ("error"@, optional_doc(text_view(r.error))),
    )
}

proof fn lemma_read(r: ProjectReport, s: ProjectStrays, notes: Seq<Annotation>, options: Options, forge: ForgeAnswers)
    requires
        reports_project(r, s, notes, options, forge),
    ensures
        ({
            let d = Doc::Object(read_members(r));
            let strays = r.strays@.map_values(|x: StrayReport| stray_doc(x));
            &&& tells(d, "name"@, Doc::Text(s.project.name@))
            &&& tells(d, "root"@, Doc::Text(s.project.root@))
            &&& tells(d, "branch"@, maybe(s.branch))
            &&& tells(d, "error"@, maybe(s.error))
            &&& tells(d, "strays"@, Doc::List(strays))
            &&& strays.len() == s.strays@.len()
            &&& forall|i: int| 0 <= i < strays.len() ==> stray_told(#[trigger] strays[i], s.strays@[i])
            &&& r.upstream matches Some(u) ==> tells(d, "upstream"@, upstream_doc(u))
            &&& is_silent(d, "agent"@) && is_silent(d, "annotations"@) && is_silent(d, "forge"@)
        }),
{
    lemma_keys();
    let name = ("name"@, Doc::Text(r.name@));
    let root = ("root"@, Doc::Text(r.root@));
    let branch = ("branch"@, optional_doc(text_view(r.branch)));
    let head = seq![name, root, branch];
    assert(head[0] == (name.0, name.1) && head[1] == (root.0, root.1) && head[2] == (branch.0, branch.1));
    let d0 = Doc::Object(head);
    assert(tells(d0, "name"@, Doc::Text(r.name@)));
    assert(tells(d0, "root"@, Doc::Text(r.root@)));
    assert(tells(d0, "branch"@, branch.1));
    assert(is_silent(d0, "agent"@) && is_silent(d0, "annotations"@) && is_silent(d0, "forge"@));
    let up = match r.upstream {
        Some(u) => {
            let m = ("upstream"@, upstream_doc(u));
            lemma_more(head, m);
            lemma_last(head, m.0, m.1);
            lemma_silent(head, m);
            head.push(m)
        },
        None => head,
    };
    let strays = r.strays@.map_values(|x: StrayReport| stray_doc(x));
    let m = ("strays"@, Doc::List(strays));
    lemma_more(up, m);
    lemma_last(up, m.0, m.1);
    lemma_silent(up, m);
    let e = ("error"@, optional_doc(text_view(r.error)));
    lemma_more(up.push(m), e);
    lemma_last(up.push(m), e.0, e.1);
    lemma_silent(up.push(m), e);
    assert(read_members(r) == up.push(m).push(e));
    assert forall|i: int| 0 <= i < strays.len() implies stray_told(
        #[trigger] strays[i],
        s.strays@[i],
    ) by {
        assert(reports_stray(r.strays@[i], s.strays@[i]));
        lemma_stray(r.strays@[i], s.strays@[i]);
    }
}

proof fn lemma_project(r: ProjectReport, s: ProjectStrays, notes: Seq<Annotation>, options: Options, forge: ForgeAnswers)
    requires
        reports_project(r, s, notes, options, forge),
    ensures
        project_told(project_doc(r), s, notes, options, forge),
{
    lemma_keys();
    lemma_read(r, s, notes, options, forge);
    let read = read_members(r);
    let worked = match r.agent {
        Some(agent) => {
            let m = ("agent"@, agent_doc(agent));
            lemma_more(read, m);
            lemma_last(read, m.0, m.1);
            lemma_silent(read, m);
            assert((m.1->Object_0)[0] == ("status"@, Doc::Text(agent.status@)));
            assert(tells(m.1, "status"@, Doc::Text(agent.status@)));
            read.push(m)
        },
        None => read,
    };
    let noted = match r.annotations {
        Some(list) => {
            let said = list@.map_values(|n: AnnotationReport| note_doc(n));
            let m = ("annotations"@, Doc::List(said));
            lemma_more(worked, m);
            lemma_last(worked, m.0, m.1);
            lemma_silent(worked, m);
            assert forall|i: int| 0 <= i < said.len() implies note_told(
                #[trigger] said[i],
                notes[i],
            ) by {
                assert(reports_note(list@[i], notes[i]));
                lemma_note(list@[i], notes[i]);
            }
            worked.push(m)
        },
        None => worked,
    };
    let all = match r.forge {
        Some(Some(said)) => {
            let m = ("forge"@, forge_doc(said));
            lemma_more(noted, m);
            lemma_last(noted, m.0, m.1);
            lemma_silent(noted, m);
            lemma_forge(said, forge@[parts(s.project.root@)]);
            noted.push(m)
        },
        Some(None) => {
            let m = ("forge"@, Doc::Null);
            lemma_more(noted, m);
            lemma_last(noted, m.0, m.1);
            lemma_silent(noted, m);
            noted.push(m)
        },
        None => noted,
    };
    let d = project_doc(r);
    assert(d == Doc::Object(all));
    let strays = r.strays@.map_values(|x: StrayReport| stray_doc(x));
    assert(tells(d, "strays"@, Doc::List(strays)));
    if let Some(u) = r.upstream {
        let up = upstream_doc(u);
        assert(tells(d, "upstream"@, up));
        assert((up->Object_0)[0] == ("ahead"@, Doc::Number(Some(u.ahead as u64))));
        assert((up->Object_0)[1] == ("behind"@, Doc::Number(Some(u.behind as u64))));
    }
    if let Some(agent) = r.agent {
        assert(tells(d, "agent"@, agent_doc(agent)));
    }
    if let Some(list) = r.annotations {
        let said = list@.map_values(|n: AnnotationReport| note_doc(n));
        assert(tells(d, "annotations"@, Doc::List(said)));
    }
    if let Some(Some(said)) = r.forge {
        assert(tells(d, "forge"@, forge_doc(said)));
    }
}

/// Whether a document tells of every project, in their order.
pub open spec fn all_told(
    d: Doc,
    scanned: Seq<ProjectStrays>,
    notes: Seq<Annotations>,
    options: Options,
    forge: ForgeAnswers,
) -> bool {
    &&& tells(d, "version"@, Doc::Number(Some(1)))
    &&& tells(d, "base"@, Doc::Text("HEAD"@))
    &&& tells(d, "show_all"@, Doc::Bool(false))
    &&& exists|projects: Seq<Doc>| #[trigger]
        tells(d, "projects"@, Doc::List(projects)) && projects.len() == scanned.len() && forall|
            i: int,
        |
            0 <= i < projects.len() ==> project_told(
                #[trigger] projects[i],
                scanned[i],
                notes_at(notes, i),
                options,
                forge,
            )
}

/// What a script reads back of a report is what was read of every project that was
/// scanned, file by file and in their order, with the sections that were asked for.
pub proof fn a_report_tells_what_was_scanned(
    text: Seq<char>,
    scanned: Seq<ProjectStrays>,
    notes: Seq<Annotations>,
    options: Options,
    forge: ForgeAnswers,
)
    requires
        writes_report(text, scanned, notes, options, forge),
    ensures
        exists|d: Doc| #[trigger]
            reads_as(text, d) && all_told(d, scanned, notes, options, forge),
{
    let r = choose|report: Report| #[trigger]
        ordinary_report(report, scanned, notes, options, forge) && text
            == written(report_doc(report)) && reads_as(text, report_doc(report));
    let projects = r.projects@.map_values(|p: ProjectReport| project_doc(p));
    let d = report_doc(r);
    lemma_four(
        d,
        ("version"@, Doc::Number(Some(r.version as u64))),
        ("base"@, Doc::Text(r.base@)),
        ("show_all"@, Doc::Bool(r.show_all)),
        ("projects"@, Doc::List(projects)),
    );
    assert forall|i: int| 0 <= i < projects.len() implies project_told(
        #[trigger] projects[i],
        scanned[i],
        notes_at(notes, i),
        options,
        forge,
    ) by {
        assert(reports_project(r.projects@[i], scanned[i], notes_at(notes, i), options, forge));
        lemma_project(r.projects@[i], scanned[i], notes_at(notes, i), options, forge);
    }
    assert(all_told(d, scanned, notes, options, forge));
}

} // verus!
