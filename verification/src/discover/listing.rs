//! What herdr's lists say, record by record.

use vstd::prelude::*;
use vstd::string::*;

use crate::discover::{
    directory_name, distinct_roots, field_in, key_text, labels_in, labels_of, panes_in,
    project_name, quoted, reached, records_in, scan_char, scanned, trimmed_start, value_after,
    PaneCwd, PaneView, Scan, Scope,
};
use crate::paths::{path_less, same_path};
use crate::sorting::{
    by_path, one_per_path, repeats_keep_paths, sorted_without_repeats, sorting_keeps_items,
};
use crate::text::{first_at, is_space, lemma_first_at, occurs_at};

verus! {

/// Whether a text closes every string and every object that it opens, given
/// whether a string is open and how many objects are. With `objects` unset it may
/// not open any.
pub open spec fn balanced(s: Seq<char>, in_string: bool, open: nat, objects: bool) -> bool
    decreases s.len(),
{
    if s.len() == 0 {
        !in_string && open == 0
    } else if s[0] == '"' {
        balanced(s.skip(1), !in_string, open, objects)
    } else if s[0] == '\\' && in_string {
        s.len() > 1 && balanced(s.skip(2), in_string, open, objects)
    } else if s[0] == '{' && !in_string {
        objects && balanced(s.skip(1), in_string, open + 1, objects)
    } else if s[0] == '}' && !in_string {
        open > 0 && balanced(s.skip(1), in_string, (open - 1) as nat, objects)
    } else {
        balanced(s.skip(1), in_string, open, objects)
    }
}

/// Whether a text has no object in it and closes its strings.
pub open spec fn flat(s: Seq<char>) -> bool {
    balanced(s, false, 0, false)
}

/// Objects one after another, each with what follows it.
pub open spec fn objects_text(bodies: Seq<Seq<char>>, gaps: Seq<Seq<char>>) -> Seq<char>
    decreases bodies.len(),
{
    if bodies.len() == 0 {
        Seq::empty()
    } else {
        objects_text(bodies.drop_last(), gaps) + object_text(bodies.last()) + gaps[bodies.len() - 1]
    }
}

/// An object as it is written.
pub open spec fn object_text(body: Seq<char>) -> Seq<char> {
    seq!['{'] + body + seq!['}']
}

/// The scan of a text from some state on, from the position `at`.
spec fn scan_text(s: Scan, at: int, text: Seq<char>) -> Scan
    decreases text.len(),
{
    if text.len() == 0 {
        s
    } else {
        scan_text(scan_char(s, at, text[0]), at + 1, text.skip(1))
    }
}

proof fn lemma_scan_add(s: Scan, at: int, a: Seq<char>, b: Seq<char>)
    ensures
        scan_text(s, at, a + b) == scan_text(scan_text(s, at, a), at + a.len(), b),
    decreases a.len(),
{
    if a.len() == 0 {
        assert(a + b =~= b);
    } else {
        assert((a + b).skip(1) =~= a.skip(1) + b);
        lemma_scan_add(scan_char(s, at, a[0]), at + 1, a.skip(1), b);
    }
}

proof fn lemma_scanned(cs: Seq<char>, n: int)
    requires
        0 <= n <= cs.len(),
    ensures
        scanned(cs, n) == scan_text(scanned(cs, 0), 0, cs.take(n)),
    decreases n,
{
    if n == 0 {
        assert(cs.take(0) =~= Seq::<char>::empty());
    } else {
        lemma_scanned(cs, n - 1);
        let start = scanned(cs, 0);
        let front = cs.take(n - 1);
        assert(cs.take(n) =~= front + seq![cs[n - 1]]);
        lemma_scan_add(start, 0, front, seq![cs[n - 1]]);
        let s = scan_text(start, 0, front);
        assert(seq![cs[n - 1]].skip(1) =~= Seq::<char>::empty());
        assert(scan_text(s, n - 1, seq![cs[n - 1]]) == scan_text(
            scan_char(s, n - 1, cs[n - 1]),
            n,
            seq![cs[n - 1]].skip(1),
        ));
    }
}

/// Text that closes what it opens leaves the scan where it was: outside a record
/// where it opens no object, and inside one whatever it opens.
proof fn lemma_balanced(s: Scan, at: int, text: Seq<char>, open: nat, objects: bool)
    requires
        !s.escaped,
        balanced(text, s.in_string, open, objects),
        objects || open == 0,
        objects ==> s.depth == 3 + open,
    ensures
        scan_text(s, at, text) == (Scan { in_string: false, depth: (s.depth - open) as nat, ..s }),
    decreases text.len(),
{
    if text.len() > 0 {
        let c = text[0];
        let t = scan_char(s, at, c);
        let rest = text.skip(1);
        if c == '\\' && s.in_string {
            let u = scan_char(t, at + 1, rest[0]);
            assert(u == s);
            assert(rest.skip(1) =~= text.skip(2));
            lemma_balanced(u, at + 2, text.skip(2), open, objects);
            assert(scan_text(t, at + 1, rest) == scan_text(u, at + 2, rest.skip(1)));
        } else if c == '{' && !s.in_string {
            lemma_balanced(t, at + 1, rest, open + 1, objects);
        } else if c == '}' && !s.in_string {
            lemma_balanced(t, at + 1, rest, (open - 1) as nat, objects);
        } else {
            lemma_balanced(t, at + 1, rest, open, objects);
        }
    }
}

/// Where the objects lie in a text that starts at `at`.
spec fn places(bodies: Seq<Seq<char>>, gaps: Seq<Seq<char>>, at: int) -> Seq<(int, int)>
    decreases bodies.len(),
{
    if bodies.len() == 0 {
        Seq::empty()
    } else {
        let from = at + objects_text(bodies.drop_last(), gaps).len();
        places(bodies.drop_last(), gaps, at).push((from, from + bodies.last().len() + 2))
    }
}

proof fn lemma_objects(s: Scan, at: int, bodies: Seq<Seq<char>>, gaps: Seq<Seq<char>>)
    requires
        !s.escaped,
        !s.in_string,
        s.depth == 2,
        s.start is None,
        gaps.len() == bodies.len(),
        forall|i: int| 0 <= i < bodies.len() ==> balanced(#[trigger] bodies[i], false, 0, true),
        forall|i: int| 0 <= i < gaps.len() ==> flat(#[trigger] gaps[i]),
    ensures
        scan_text(s, at, objects_text(bodies, gaps)) == (Scan {
            found: s.found + places(bodies, gaps, at),
            ..s
        }),
    decreases bodies.len(),
{
    if bodies.len() == 0 {
        assert(s.found + places(bodies, gaps, at) =~= s.found);
    } else {
        let front = bodies.drop_last();
        let head = gaps.drop_last();
        lemma_objects_head(front, gaps, head);
        assert forall|i: int| 0 <= i < front.len() implies balanced(
            #[trigger] front[i],
            false,
            0,
            true,
        ) by {
            assert(balanced(bodies[i], false, 0, true));
        }
        assert forall|i: int| 0 <= i < head.len() implies flat(#[trigger] head[i]) by {
            assert(flat(gaps[i]));
        }
        lemma_objects(s, at, front, head);
        let before = objects_text(front, gaps);
        let body = bodies.last();
        assert(bodies[bodies.len() - 1] == body);
        let gap = gaps[bodies.len() - 1];
        let from = at + before.len();
        let a = scan_text(s, at, before);
        assert(a == (Scan { found: s.found + places(front, gaps, at), ..s }));
        lemma_scan_add(s, at, before + object_text(body), gap);
        lemma_scan_add(s, at, before, object_text(body));
        lemma_scan_add(a, from, seq!['{'] + body, seq!['}']);
        lemma_scan_add(a, from, seq!['{'], body);
        let b = scan_char(a, from, '{');
        assert(seq!['{'].skip(1) =~= Seq::<char>::empty());
        assert(scan_text(b, from + 1, seq!['{'].skip(1)) == b);
        assert(scan_text(a, from, seq!['{']) == b);
        lemma_balanced(b, from + 1, body, 0, true);
        let c = scan_char(b, from + 1 + body.len(), '}');
        assert(seq!['}'].skip(1) =~= Seq::<char>::empty());
        assert(scan_text(c, from + 2 + body.len(), seq!['}'].skip(1)) == c);
        assert(scan_text(b, from + 1 + body.len(), seq!['}']) == c);
        lemma_balanced(c, from + body.len() + 2, gap, 0, false);
        assert(c.found =~= s.found + places(bodies, gaps, at));
    }
}

proof fn lemma_objects_head(front: Seq<Seq<char>>, gaps: Seq<Seq<char>>, head: Seq<Seq<char>>)
    requires
        front.len() <= head.len(),
        head.len() <= gaps.len(),
        head == gaps.take(head.len() as int),
    ensures
        objects_text(front, gaps) == objects_text(front, head),
        forall|at: int| #[trigger] places(front, gaps, at) == places(front, head, at),
    decreases front.len(),
{
    if front.len() > 0 {
        lemma_objects_head(front.drop_last(), gaps, head);
        assert(head[front.len() - 1] == gaps[front.len() - 1]);
        assert forall|at: int| #[trigger] places(front, gaps, at) == places(front, head, at) by {
            assert(places(front.drop_last(), gaps, at) == places(front.drop_last(), head, at));
        }
    }
}

proof fn lemma_places_cut(
    before: Seq<char>,
    bodies: Seq<Seq<char>>,
    gaps: Seq<Seq<char>>,
    after: Seq<char>,
)
    ensures
        places(bodies, gaps, before.len() as int).len() == bodies.len(),
        forall|i: int|
            0 <= i < bodies.len() ==> {
                let (from, to) = #[trigger] places(bodies, gaps, before.len() as int)[i];
                &&& 0 <= from <= to <= (before + objects_text(bodies, gaps)).len()
                &&& (before + objects_text(bodies, gaps) + after).subrange(from, to) == object_text(
                    bodies[i],
                )
            },
    decreases bodies.len(),
{
    if bodies.len() > 0 {
        let front = bodies.drop_last();
        let rest = object_text(bodies.last()) + gaps[bodies.len() - 1] + after;
        lemma_places_cut(before, front, gaps, rest);
        let whole = before + objects_text(bodies, gaps) + after;
        let head = before + objects_text(front, gaps);
        assert(whole =~= head + rest);
        let ps = places(bodies, gaps, before.len() as int);
        assert forall|i: int| 0 <= i < bodies.len() implies {
            let (from, to) = #[trigger] ps[i];
            &&& 0 <= from <= to <= (before + objects_text(bodies, gaps)).len()
            &&& whole.subrange(from, to) == object_text(bodies[i])
        } by {
            if i < front.len() {
                assert(ps[i] == places(front, gaps, before.len() as int)[i]);
                assert(bodies[i] == front[i]);
            } else {
                let from = head.len() as int;
                let to = from + bodies.last().len() + 2;
                assert(ps[i] == (from, to));
                assert(whole.subrange(from, to) =~= object_text(bodies.last()));
            }
        }
    }
}

/// A response of herdr reads as the objects of its list, all of them and in their
/// order: an object around one that holds the list, with whatever else stands in
/// the two. What is inside an object of the list, other objects too, is part of
/// it.
pub proof fn the_objects_of_a_list_are_its_records(
    a: Seq<char>,
    b: Seq<char>,
    bodies: Seq<Seq<char>>,
    gaps: Seq<Seq<char>>,
    c: Seq<char>,
)
    requires
        flat(a),
        flat(b),
        flat(c),
        gaps.len() == bodies.len(),
        forall|i: int| 0 <= i < bodies.len() ==> balanced(#[trigger] bodies[i], false, 0, true),
        forall|i: int| 0 <= i < gaps.len() ==> flat(#[trigger] gaps[i]),
    ensures
        records_in(
            seq!['{'] + a + seq!['{'] + b + objects_text(bodies, gaps) + seq!['}'] + c + seq!['}'],
        ) == bodies.map_values(|body: Seq<char>| object_text(body)),
{
    let before = seq!['{'] + a + seq!['{'] + b;
    let after = seq!['}'] + c + seq!['}'];
    let list = objects_text(bodies, gaps);
    let cs = before + list + after;
    assert(cs =~= seq!['{'] + a + seq!['{'] + b + list + seq!['}'] + c + seq!['}']);
    let start = scanned(cs, 0);
    lemma_scanned(cs, cs.len() as int);
    assert(cs.take(cs.len() as int) =~= cs);
    lemma_scan_add(start, 0, before + list, after);
    lemma_scan_add(start, 0, before, list);
    // Into the two objects.
    let one = seq!['{'];
    lemma_scan_add(start, 0, one + a + one, b);
    lemma_scan_add(start, 0, one + a, one);
    lemma_scan_add(start, 0, one, a);
    assert(one.skip(1) =~= Seq::<char>::empty());
    let s1 = scan_char(start, 0, '{');
    assert(scan_text(s1, 1, one.skip(1)) == s1);
    assert(scan_text(start, 0, one) == s1);
    lemma_balanced(s1, 1, a, 0, false);
    let s2 = scan_char(s1, 1int + a.len(), '{');
    assert(scan_text(s2, 2int + a.len(), one.skip(1)) == s2);
    assert(scan_text(s1, 1int + a.len(), one) == s2);
    lemma_balanced(s2, 2int + a.len(), b, 0, false);
    assert(scan_text(start, 0, before) == s2);
    let at = before.len() as int;
    lemma_objects(s2, at, bodies, gaps);
    let s3 = scan_text(s2, at, list);
    // And out of them.
    let far = at + list.len();
    let end = seq!['}'];
    lemma_scan_add(s3, far, end + c, end);
    lemma_scan_add(s3, far, end, c);
    assert(end.skip(1) =~= Seq::<char>::empty());
    let s4 = scan_char(s3, far, '}');
    assert(scan_text(s4, far + 1, end.skip(1)) == s4);
    assert(scan_text(s3, far, end) == s4);
    lemma_balanced(s4, far + 1, c, 0, false);
    let s5 = scan_char(s4, far + 1 + c.len(), '}');
    assert(scan_text(s5, far + 2 + c.len(), end.skip(1)) == s5);
    assert(scan_text(s4, far + 1 + c.len(), end) == s5);
    assert(s5.found =~= places(bodies, gaps, at));
    lemma_places_cut(before, bodies, gaps, after);
    assert(scanned(cs, cs.len() as int).found == places(bodies, gaps, at));
    assert(records_in(cs) =~= bodies.map_values(|body: Seq<char>| object_text(body))) by {
        let found = places(bodies, gaps, at);
        assert forall|i: int| 0 <= i < bodies.len() implies records_in(cs)[i] == object_text(
            bodies[i],
        ) by {
            assert(records_in(cs)[i] == cs.subrange(found[i].0, found[i].1));
        }
    }
}

/// A text as it is written between quotes.
pub open spec fn escaped_text(s: Seq<char>) -> Seq<char>
    decreases s.len(),
{
    if s.len() == 0 {
        Seq::empty()
    } else {
        let c = s[0];
        (if c == '"' || c == '\\' {
            seq!['\\', c]
        } else if c == '\n' {
            seq!['\\', 'n']
        } else if c == '\t' {
            seq!['\\', 't']
        } else if c == '\r' {
            seq!['\\', 'r']
        } else {
            seq![c]
        }) + escaped_text(s.skip(1))
    }
}

/// A string reads back as it was written, up to its closing quote and whatever
/// stands behind it.
pub proof fn strings_read_back(s: Seq<char>, after: Seq<char>)
    ensures
        quoted(escaped_text(s) + seq!['"'] + after) == Some(s),
    decreases s.len(),
{
    let text = escaped_text(s) + seq!['"'] + after;
    if s.len() == 0 {
        assert(text[0] == '"');
        assert(quoted(text) =~= Some(s));
    } else {
        let c = s[0];
        let rest = escaped_text(s.skip(1)) + seq!['"'] + after;
        strings_read_back(s.skip(1), after);
        if c == '"' || c == '\\' || c == '\n' || c == '\t' || c == '\r' {
            assert(text.skip(2) =~= rest);
            assert(text[0] == '\\');
        } else {
            assert(text.skip(1) =~= rest);
            assert(text[0] == c);
        }
        assert(seq![c] + s.skip(1) =~= s);
    }
}

/// A record in which a string stands behind a name and a colon.
pub open spec fn record_with(
    before: Seq<char>,
    key: Seq<char>,
    value: Seq<char>,
    after: Seq<char>,
) -> Seq<char> {
    before + key_text(key) + seq![':', '"'] + escaped_text(value) + seq!['"'] + after
}

/// A field of a record reads as the string that is written behind its name and a
/// colon, where the name does not stand in the record before.
pub proof fn fields_read_back(before: Seq<char>, key: Seq<char>, value: Seq<char>, after: Seq<char>)
    requires
        before.len() > 0,
        before.last() != '_',
        before.last() != '"',
        forall|j: int|
            0 <= j < before.len() ==> !#[trigger] occurs_at(
                record_with(before, key, value, after),
                key_text(key),
                j,
            ),
    ensures
        field_in(record_with(before, key, value, after), key) == Some(value),
{
    let needle = key_text(key);
    let string = escaped_text(value) + seq!['"'] + after;
    let record = record_with(before, key, value, after);
    let at = before.len() as int;
    assert(record.subrange(at, at + needle.len()) =~= needle);
    assert(occurs_at(record, needle, at));
    lemma_first_at(record, needle, 0);
    assert(first_at(record, needle, 0) == Some(at));
    let rest = record.skip(at + needle.len());
    assert(rest =~= seq![':', '"'] + string);
    let p = |c: char| is_space(c);
    assert(trimmed_start(rest) == rest);
    assert(rest.skip(1) =~= seq!['"'] + string);
    assert(trimmed_start(rest.skip(1)) == rest.skip(1));
    assert(rest.skip(1).skip(1) =~= string);
    strings_read_back(value, after);
    assert(value_after(rest) == Some(value));
    assert(record[at - 1] == before.last());
}

/// Every record that has a directory is a pane, and no other: records one after
/// another give the panes of each in turn.
pub proof fn every_record_with_a_directory_is_a_pane(
    a: Seq<Seq<char>>,
    b: Seq<Seq<char>>,
    record: Seq<char>,
)
    ensures
        panes_in(Seq::empty()).len() == 0,
        match field_in(record, "cwd"@) {
            Some(cwd) => panes_in(seq![record]).len() == 1 && panes_in(seq![record])[0].cwd == cwd
                && (field_in(record, "workspace_id"@) matches Some(id) ==> panes_in(
                seq![record],
            )[0].workspace_id == id),
            None => panes_in(seq![record]).len() == 0,
        },
        panes_in(a + b) == panes_in(a) + panes_in(b),
    decreases b.len(),
{
    assert(seq![record].drop_last() =~= Seq::<Seq<char>>::empty());
    assert(panes_in(seq![record].drop_last()) =~= Seq::<PaneView>::empty());
    assert(seq![record].last() == record);
    if b.len() == 0 {
        assert(a + b =~= a);
        assert(panes_in(a + b) =~= panes_in(a) + panes_in(b));
    } else {
        assert((a + b).drop_last() =~= a + b.drop_last());
        assert((a + b).last() == b.last());
        every_record_with_a_directory_is_a_pane(a, b.drop_last(), record);
        assert(panes_in(a + b) =~= panes_in(a) + panes_in(b));
    }
}

/// A workspace is called what the last record with its id and a label calls it.
pub proof fn workspaces_are_called_by_their_last_label(
    records: Seq<Seq<char>>,
    record: Seq<char>,
    id: Seq<char>,
)
    ensures
        field_in(record, "workspace_id"@) == Some(id) ==> match field_in(record, "label"@) {
            Some(label) => labels_in(records.push(record)).contains_key(id) && labels_in(
                records.push(record),
            )[id] == label,
            None => labels_in(records.push(record)) == labels_in(records),
        },
        field_in(record, "workspace_id"@) != Some(id) ==> labels_in(
            records.push(record),
        ).contains_key(id) == labels_in(records).contains_key(id) && labels_in(
            records.push(record),
        )[id] == labels_in(records)[id],
        !labels_in(Seq::empty()).contains_key(id),
{
    assert(records.push(record).drop_last() =~= records);
    assert(records.push(record).last() == record);
}

/// Whether a pane reached a repository.
pub open spec fn reaches(roots: Seq<Option<String>>, i: int, root: Seq<char>) -> bool {
    0 <= i < roots.len() && (roots[i] matches Some(r) && r@ == root)
}

/// Whether any pane reached a repository.
pub open spec fn is_reached(roots: Seq<Option<String>>, root: Seq<char>) -> bool {
    exists|i: int| #[trigger] reaches(roots, i, root)
}

/// Every repository that a pane reached is listed, once, and in the order of the
/// paths; and none that no pane reached.
pub proof fn every_repository_is_listed_once(roots: Seq<Option<String>>)
    ensures
        forall|i: int|
            0 <= i < roots.len() && (#[trigger] roots[i]) is Some ==> exists|j: int|
                0 <= j < distinct_roots(roots).len() && same_path(
                    #[trigger] distinct_roots(roots)[j],
                    roots[i]->0@,
                ),
        forall|i: int, j: int|
            0 <= i < j < distinct_roots(roots).len() ==> path_less(
                #[trigger] distinct_roots(roots)[i],
                #[trigger] distinct_roots(roots)[j],
            ),
        forall|j: int|
            0 <= j < distinct_roots(roots).len() ==> is_reached(
                roots,
                #[trigger] distinct_roots(roots)[j],
            ),
{
    let key = |p: Seq<char>| p;
    let all = reached(roots);
    let sorted = by_path(all, key);
    let once = distinct_roots(roots);
    sorted_without_repeats(all, key);
    lemma_reached(roots);
    assert forall|i: int| 0 <= i < roots.len() && (#[trigger] roots[i]) is Some implies exists|
        j: int,
    |
        0 <= j < once.len() && same_path(#[trigger] once[j], roots[i]->0@) by {
        let root = roots[i]->0@;
        assert(all.contains(root));
        sorting_keeps_items(all, key, root);
        let k = choose|k: int| 0 <= k < sorted.len() && sorted[k] == root;
        repeats_keep_paths(sorted, key, k);
        let j = choose|j: int|
            0 <= j < one_per_path(sorted, key).len() && same_path(
                key(#[trigger] one_per_path(sorted, key)[j]),
                key(sorted[k]),
            );
        assert(same_path(once[j], root));
    }
    assert forall|j: int| 0 <= j < once.len() implies is_reached(roots, #[trigger] once[j]) by {
        assert(sorted.contains(once[j]));
        sorting_keeps_items(all, key, once[j]);
        assert(all.contains(once[j]));
    }
}

proof fn lemma_reached(roots: Seq<Option<String>>)
    ensures
        forall|i: int|
            0 <= i < roots.len() && (#[trigger] roots[i]) is Some ==> reached(roots).contains(
                roots[i]->0@,
            ),
        forall|root: Seq<char>| #[trigger]
            reached(roots).contains(root) ==> exists|i: int|
                #[trigger] reaches(roots, i, root),
    decreases roots.len(),
{
    if roots.len() > 0 {
        let front = roots.drop_last();
        lemma_reached(front);
        let before = reached(front);
        let now = reached(roots);
        assert forall|i: int| 0 <= i < roots.len() && (#[trigger] roots[i]) is Some implies now.contains(
            roots[i]->0@,
        ) by {
            if i < front.len() {
                assert(front[i] == roots[i]);
                let k = before.index_of(roots[i]->0@);
                assert(now[k] == before[k]);
            } else {
                assert(now[now.len() - 1] == roots[i]->0@);
            }
        }
        assert forall|root: Seq<char>| #[trigger] now.contains(root) implies exists|i: int|
            #[trigger] reaches(roots, i, root) by {
            if before.contains(root) {
                let i = choose|i: int|
                    #[trigger] reaches(front, i, root);
                assert(reaches(roots, i, root));
            } else {
                let k = now.index_of(root);
                if k < before.len() {
                    assert(before[k] == root);
                }
                assert(reaches(roots, roots.len() - 1, root));
            }
        }
    }
}

/// Whether a pane that reached a repository is in a workspace with some label.
pub open spec fn labelled(
    panes: Seq<PaneCwd>,
    roots: Seq<Option<String>>,
    labels: Map<Seq<char>, Seq<char>>,
    root: Seq<char>,
    label: Seq<char>,
    i: int,
) -> bool {
    &&& 0 <= i < panes.len()
    &&& roots[i] matches Some(r) && same_path(r@, root)
    &&& labels.contains_key(panes[i].workspace_id@)
    &&& labels[panes[i].workspace_id@] == label
}

/// A repository goes by the label of the workspaces that reach it where there is
/// one label and no other, and else by its directory.
pub proof fn one_label_names_a_repository(
    panes: Seq<PaneCwd>,
    roots: Seq<Option<String>>,
    labels: Map<Seq<char>, Seq<char>>,
    root: Seq<char>,
    label: Seq<char>,
)
    requires
        panes.len() == roots.len(),
    ensures
        (exists|i: int| #[trigger] labelled(panes, roots, labels, root, label, i)) && (forall|
            i: int,
            other: Seq<char>,
        | #[trigger]
            labelled(panes, roots, labels, root, other, i) ==> other == label) ==> project_name(
            labels_of(panes, roots, labels, root),
            root,
        ) == label,
        (forall|i: int, any: Seq<char>| !#[trigger] labelled(panes, roots, labels, root, any, i))
            ==> project_name(labels_of(panes, roots, labels, root), root) == directory_name(root),
        forall|i: int, j: int, other: Seq<char>|
            #[trigger] labelled(panes, roots, labels, root, label, i) && #[trigger] labelled(
                panes,
                roots,
                labels,
                root,
                other,
                j,
            ) && other != label ==> project_name(labels_of(panes, roots, labels, root), root)
                == directory_name(root),
{
    let own = labels_of(panes, roots, labels, root);
    lemma_labels(panes, roots, labels, root);
    if (exists|i: int| #[trigger] labelled(panes, roots, labels, root, label, i)) && (forall|
        i: int,
        other: Seq<char>,
    | #[trigger]
        labelled(panes, roots, labels, root, other, i) ==> other == label) {
        assert(own.contains(label));
        if own.len() > 1 {
            assert(own.contains(own[0]) && own.contains(own[1]));
            let i = choose|i: int| #[trigger] labelled(panes, roots, labels, root, own[0], i);
            let j = choose|j: int| #[trigger] labelled(panes, roots, labels, root, own[1], j);
            assert(own[0] == label && own[1] == label);
        }
        assert(own[0] == label);
    }
    if forall|i: int, any: Seq<char>| !#[trigger] labelled(panes, roots, labels, root, any, i) {
        if own.len() > 0 {
            assert(own.contains(own[0]));
        }
    }
    assert forall|i: int, j: int, other: Seq<char>|
        #[trigger] labelled(panes, roots, labels, root, label, i) && #[trigger] labelled(
            panes,
            roots,
            labels,
            root,
            other,
            j,
        ) && other != label implies project_name(own, root) == directory_name(root) by {
        assert(own.contains(label) && own.contains(other));
        let k = own.index_of(label);
        let m = own.index_of(other);
        assert(own[k] == label && own[m] == other);
    }
}

proof fn lemma_labels(
    panes: Seq<PaneCwd>,
    roots: Seq<Option<String>>,
    labels: Map<Seq<char>, Seq<char>>,
    root: Seq<char>,
)
    requires
        panes.len() == roots.len(),
    ensures
        forall|label: Seq<char>, i: int| #[trigger]
            labelled(panes, roots, labels, root, label, i) ==> labels_of(
                panes,
                roots,
                labels,
                root,
            ).contains(label),
        forall|label: Seq<char>| #[trigger]
            labels_of(panes, roots, labels, root).contains(label) ==> exists|i: int| #[trigger]
                labelled(panes, roots, labels, root, label, i),
        labels_of(panes, roots, labels, root).no_duplicates(),
    decreases panes.len(),
{
    if panes.len() > 0 {
        let (ps, rs) = (panes.drop_last(), roots.drop_last());
        lemma_labels(ps, rs, labels, root);
        let before = labels_of(ps, rs, labels, root);
        let now = labels_of(panes, roots, labels, root);
        let n = ps.len() as int;
        assert forall|label: Seq<char>, i: int| #[trigger]
            labelled(panes, roots, labels, root, label, i) implies now.contains(label) by {
            if i < n {
                assert(labelled(ps, rs, labels, root, label, i));
                let k = before.index_of(label);
                assert(now[k] == label);
            } else {
                if before.contains(label) {
                    assert(now == before);
                } else {
                    assert(now[now.len() - 1] == label);
                }
            }
        }
        assert forall|label: Seq<char>| #[trigger] now.contains(label) implies exists|i: int| #[trigger]
            labelled(panes, roots, labels, root, label, i) by {
            if before.contains(label) {
                let i = choose|i: int| #[trigger] labelled(ps, rs, labels, root, label, i);
                assert(labelled(panes, roots, labels, root, label, i));
            } else {
                let k = now.index_of(label);
                if k < before.len() {
                    assert(before[k] == label);
                }
                assert(labelled(panes, roots, labels, root, label, n));
            }
        }
    }
}

/// A scope of one workspace covers that workspace and no other; the scope of all
/// covers every one.
pub proof fn a_scope_covers_its_own_workspace(id: String, workspace: Seq<char>)
    ensures
        Scope::CurrentWorkspace(id).covers(workspace) <==> workspace == id@,
        Scope::AllWorkspaces.covers(workspace),
{
}

} // verus!
