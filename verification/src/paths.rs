//! File paths, held as text and compared by their parts.
//!
//! Two paths are the same when their parts are: repeated separators, a
//! separator at the end and a `.` anywhere but at the front make no difference.
//! Paths are ordered by their parts as well, so a directory's files stay
//! together.

use vstd::prelude::*;
use vstd::string::*;

use crate::seqs::{join_with, lemma_split_join, split_on};
use crate::text::{chars_of, join, split, text_view, texts};

pub mod reading;

verus! {

/// One part of a path.
pub enum Part {
    /// The separator that an absolute path starts with.
    Root,
    /// A `.` at the front of a relative path.
    Here,
    /// A `..`.
    Up,
    /// A name.
    Name(Seq<char>),
}

/// What the `k`-th piece between the separators contributes to a path.
pub open spec fn part_of(piece: Seq<char>, k: int) -> Option<Part> {
    if piece.len() == 0 {
        None
    } else if piece == seq!['.'] {
        if k == 0 {
            Some(Part::Here)
        } else {
            None
        }
    } else if piece == seq!['.', '.'] {
        Some(Part::Up)
    } else {
        Some(Part::Name(piece))
    }
}

/// What the pieces from the `k`-th on contribute to a path.
pub open spec fn parts_from(pieces: Seq<Seq<char>>, k: int) -> Seq<Part>
    decreases pieces.len() - k,
{
    if k < 0 || k >= pieces.len() {
        Seq::empty()
    } else {
        match part_of(pieces[k], k) {
            Some(part) => seq![part] + parts_from(pieces, k + 1),
            None => parts_from(pieces, k + 1),
        }
    }
}

/// Whether a path is absolute.
pub open spec fn is_rooted(p: Seq<char>) -> bool {
    p.len() > 0 && p[0] == '/'
}

/// The parts of a path.
pub open spec fn parts(p: Seq<char>) -> Seq<Part> {
    let named = parts_from(split_on(p, '/'), 0);
    if is_rooted(p) {
        seq![Part::Root] + named
    } else {
        named
    }
}

/// Whether two texts name the same path.
pub open spec fn same_path(a: Seq<char>, b: Seq<char>) -> bool {
    parts(a) == parts(b)
}

/// Whether one run of characters comes before another, by code point.
pub open spec fn text_less(a: Seq<char>, b: Seq<char>) -> bool
    decreases a.len(),
{
    if b.len() == 0 {
        false
    } else if a.len() == 0 {
        true
    } else if a[0] == b[0] {
        text_less(a.skip(1), b.skip(1))
    } else {
        a[0] < b[0]
    }
}

/// The place of a part's kind among the kinds.
pub open spec fn rank(p: Part) -> int {
    match p {
        Part::Root => 0,
        Part::Here => 1,
        Part::Up => 2,
        Part::Name(_) => 3,
    }
}

/// Whether one part comes before another.
pub open spec fn part_less(a: Part, b: Part) -> bool {
    match (a, b) {
        (Part::Name(x), Part::Name(y)) => text_less(x, y),
        _ => rank(a) < rank(b),
    }
}

/// Whether one run of parts comes before another.
pub open spec fn parts_less(a: Seq<Part>, b: Seq<Part>) -> bool
    decreases a.len(),
{
    if b.len() == 0 {
        false
    } else if a.len() == 0 {
        true
    } else if a[0] == b[0] {
        parts_less(a.skip(1), b.skip(1))
    } else {
        part_less(a[0], b[0])
    }
}

/// Whether one path comes before another.
pub open spec fn path_less(a: Seq<char>, b: Seq<char>) -> bool {
    parts_less(parts(a), parts(b))
}

/// The order of texts is total.
pub proof fn lemma_text_order(a: Seq<char>, b: Seq<char>)
    ensures
        !(text_less(a, b) && text_less(b, a)),
        a == b ==> !text_less(a, b),
        a != b ==> text_less(a, b) || text_less(b, a),
    decreases a.len(),
{
    if a.len() > 0 && b.len() > 0 && a[0] == b[0] {
        lemma_text_order(a.skip(1), b.skip(1));
        if a.skip(1) == b.skip(1) {
            assert(a =~= seq![a[0]] + a.skip(1));
            assert(b =~= seq![b[0]] + b.skip(1));
        }
    } else if a.len() == 0 && b.len() == 0 {
        assert(a =~= b);
    }
}

/// The order of texts is transitive.
pub proof fn lemma_text_transitive(a: Seq<char>, b: Seq<char>, c: Seq<char>)
    requires
        text_less(a, b),
        text_less(b, c),
    ensures
        text_less(a, c),
    decreases a.len(),
{
    if a.len() > 0 && a[0] == b[0] && b[0] == c[0] {
        lemma_text_transitive(a.skip(1), b.skip(1), c.skip(1));
    }
}

proof fn lemma_parts_order(a: Seq<Part>, b: Seq<Part>)
    ensures
        !(parts_less(a, b) && parts_less(b, a)),
        a == b ==> !parts_less(a, b),
        a != b ==> parts_less(a, b) || parts_less(b, a),
    decreases a.len(),
{
    if a.len() > 0 && b.len() > 0 {
        if a[0] == b[0] {
            lemma_parts_order(a.skip(1), b.skip(1));
            if a.skip(1) == b.skip(1) {
                assert(a =~= seq![a[0]] + a.skip(1));
                assert(b =~= seq![b[0]] + b.skip(1));
            }
        } else {
            match (a[0], b[0]) {
                (Part::Name(x), Part::Name(y)) => {
                    lemma_text_order(x, y);
                },
                _ => {},
            }
        }
    } else if a.len() == 0 && b.len() == 0 {
        assert(a =~= b);
    }
}

proof fn lemma_parts_transitive(a: Seq<Part>, b: Seq<Part>, c: Seq<Part>)
    requires
        parts_less(a, b),
        parts_less(b, c),
    ensures
        parts_less(a, c),
    decreases a.len(),
{
    if a.len() > 0 {
        if a[0] == b[0] && b[0] == c[0] {
            lemma_parts_transitive(a.skip(1), b.skip(1), c.skip(1));
        } else {
            match (a[0], b[0], c[0]) {
                (Part::Name(x), Part::Name(y), Part::Name(z)) => {
                    lemma_text_order(x, z);
                    lemma_text_order(x, y);
                    lemma_text_order(y, z);
                    if text_less(x, y) && text_less(y, z) {
                        lemma_text_transitive(x, y, z);
                    }
                },
                _ => {},
            }
        }
    }
}

/// What stands between two paths below one directory is below it too.
pub proof fn lemma_parts_between(a: Seq<Part>, b: Seq<Part>, c: Seq<Part>, dir: Seq<Part>)
    requires
        !parts_less(b, a),
        !parts_less(c, b),
        dir.len() < a.len(),
        dir.len() < c.len(),
        a.take(dir.len() as int) == dir,
        c.take(dir.len() as int) == dir,
    ensures
        dir.len() < b.len(),
        b.take(dir.len() as int) == dir,
    decreases dir.len(),
{
    if dir.len() == 0 {
        assert(b.take(0) =~= dir);
    } else {
        let n = dir.len() as int;
        assert(a[0] == a.take(n)[0]);
        assert(c[0] == c.take(n)[0]);
        if b[0] != a[0] {
            match (a[0], b[0]) {
                (Part::Name(x), Part::Name(y)) => {
                    lemma_text_order(x, y);
                },
                _ => {},
            }
        }
        assert(b[0] == dir[0]);
        assert(a.skip(1).take(n - 1) =~= a.take(n).skip(1));
        assert(c.skip(1).take(n - 1) =~= c.take(n).skip(1));
        lemma_parts_between(a.skip(1), b.skip(1), c.skip(1), dir.skip(1));
        assert(b.take(n) =~= seq![b[0]] + b.skip(1).take(n - 1));
        assert(dir =~= seq![dir[0]] + dir.skip(1));
    }
}

/// The order of paths is total: of two paths exactly one comes first, or they
/// are the same path.
pub proof fn path_order_total(a: Seq<char>, b: Seq<char>)
    ensures
        !(path_less(a, b) && path_less(b, a)),
        same_path(a, b) <==> !path_less(a, b) && !path_less(b, a),
{
    lemma_parts_order(parts(a), parts(b));
}

/// The order of paths is transitive.
pub proof fn path_order_transitive(a: Seq<char>, b: Seq<char>, c: Seq<char>)
    requires
        path_less(a, b),
        path_less(b, c),
    ensures
        path_less(a, c),
{
    lemma_parts_transitive(parts(a), parts(b), parts(c));
}

/// A part of a path, as a value.
#[derive(Debug, Clone, PartialEq, Eq)]
pub enum Component {
    /// The separator that an absolute path starts with.
    Root,
    /// A `.` at the front of a relative path.
    Here,
    /// A `..`.
    Up,
    /// A name.
    Name(String),
}

impl View for Component {
    type V = Part;

    open spec fn view(&self) -> Part {
        match self {
            Component::Root => Part::Root,
            Component::Here => Part::Here,
            Component::Up => Part::Up,
            Component::Name(n) => Part::Name(n@),
        }
    }
}

/// The parts that the components stand for.
pub open spec fn component_parts(v: Seq<Component>) -> Seq<Part> {
    v.map_values(|c: Component| c@)
}

/// The parts of a path.
pub fn components(p: &str) -> (r: Vec<Component>)
    ensures
        component_parts(r@) == parts(p@),
{
    let pieces = split(p, '/');
    let rooted = absolute(p);
    let mut out: Vec<Component> = Vec::new();
    let ghost lead: Seq<Part> = if is_rooted(p@) {
        seq![Part::Root]
    } else {
        Seq::empty()
    };
    if rooted {
        out.push(Component::Root);
    }
    assert(component_parts(out@) =~= lead);
    let ghost all = split_on(p@, '/');
    for k in 0..pieces.len()
        invariant
            all == texts(pieces@),
            component_parts(out@) + parts_from(all, k as int) =~= lead + parts_from(all, 0),
    {
        let cs = chars_of(pieces[k].as_str());
        assert(all[k as int] == cs@);
        let ghost before = component_parts(out@);
        if cs.len() == 0 {
        } else if cs.len() == 1 && cs[0] == '.' {
            assert(cs@ =~= seq!['.']);
            if k == 0 {
                out.push(Component::Here);
                assert(component_parts(out@) =~= before.push(Part::Here));
            }
        } else if cs.len() == 2 && cs[0] == '.' && cs[1] == '.' {
            assert(cs@ =~= seq!['.', '.']);
            assert(cs@.len() != seq!['.'].len());
            out.push(Component::Up);
            assert(component_parts(out@) =~= before.push(Part::Up));
        } else {
            assert(cs@ != seq!['.']) by {
                if cs@ == seq!['.'] {
                    assert(cs@.len() == 1 && cs@[0] == '.');
                }
            }
            assert(cs@ != seq!['.', '.']) by {
                if cs@ == seq!['.', '.'] {
                    assert(cs@.len() == 2 && cs@[0] == '.' && cs@[1] == '.');
                }
            }
            out.push(Component::Name(pieces[k].clone()));
            assert(component_parts(out@) =~= before.push(Part::Name(cs@)));
        }
    }
    out
}

/// Whether a path is absolute.
pub fn absolute(p: &str) -> (r: bool)
    ensures
        r == is_rooted(p@),
{
    let cs = chars_of(p);
    cs.len() > 0 && cs[0] == '/'
}

/// Whether two components are the same part.
pub fn same_component(a: &Component, b: &Component) -> (r: bool)
    ensures
        r == (a@ == b@),
{
    match (a, b) {
        (Component::Root, Component::Root) => true,
        (Component::Here, Component::Here) => true,
        (Component::Up, Component::Up) => true,
        (Component::Name(x), Component::Name(y)) => *x == *y,
        _ => false,
    }
}

/// Whether one text sorts before another, character by character.
pub fn text_before(a: &Vec<char>, b: &Vec<char>) -> (r: bool)
    ensures
        r == text_less(a@, b@),
{
    let mut i: usize = 0;
    assert(a@.skip(0) =~= a@);
    assert(b@.skip(0) =~= b@);
    while i < a.len() && i < b.len() && a[i] == b[i]
        invariant
            i <= a@.len(),
            i <= b@.len(),
            text_less(a@, b@) == text_less(a@.skip(i as int), b@.skip(i as int)),
        decreases a@.len() - i,
    {
        assert(a@.skip(i as int).skip(1) =~= a@.skip(i + 1));
        assert(b@.skip(i as int).skip(1) =~= b@.skip(i + 1));
        i += 1;
    }
    if i == b.len() {
        false
    } else if i == a.len() {
        true
    } else {
        a[i] < b[i]
    }
}

fn component_before(a: &Component, b: &Component) -> (r: bool)
    ensures
        r == part_less(a@, b@),
{
    match (a, b) {
        (Component::Name(x), Component::Name(y)) => {
            let xs = chars_of(x.as_str());
            let ys = chars_of(y.as_str());
            text_before(&xs, &ys)
        },
        _ => component_rank(a) < component_rank(b),
    }
}

fn component_rank(a: &Component) -> (r: u8)
    ensures
        r == rank(a@),
{
    match a {
        Component::Root => 0,
        Component::Here => 1,
        Component::Up => 2,
        Component::Name(_) => 3,
    }
}

/// Whether two texts name the same path.
pub fn same_as(a: &str, b: &str) -> (r: bool)
    ensures
        r == same_path(a@, b@),
{
    let x = components(a);
    let y = components(b);
    if x.len() != y.len() {
        assert(component_parts(x@).len() != component_parts(y@).len());
        return false;
    }
    for i in 0..x.len()
        invariant
            x@.len() == y@.len(),
            component_parts(x@) == parts(a@),
            component_parts(y@) == parts(b@),
            forall|j: int| 0 <= j < i ==> parts(a@)[j] == parts(b@)[j],
    {
        assert(parts(a@)[i as int] == x@[i as int]@);
        assert(parts(b@)[i as int] == y@[i as int]@);
        if !same_component(&x[i], &y[i]) {
            return false;
        }
    }
    assert(parts(a@) =~= parts(b@));
    true
}

/// Whether one path comes before another.
pub fn before(a: &str, b: &str) -> (r: bool)
    ensures
        r == path_less(a@, b@),
{
    let x = components(a);
    let y = components(b);
    let ghost p = parts(a@);
    let ghost q = parts(b@);
    let mut i: usize = 0;
    assert(p.skip(0) =~= p);
    assert(q.skip(0) =~= q);
    while i < x.len() && i < y.len()
        invariant
            i <= x@.len(),
            i <= y@.len(),
            p == component_parts(x@),
            q == component_parts(y@),
            p == parts(a@),
            q == parts(b@),
            parts_less(p, q) == parts_less(p.skip(i as int), q.skip(i as int)),
        decreases x@.len() - i,
    {
        assert(p[i as int] == x@[i as int]@);
        assert(q[i as int] == y@[i as int]@);
        if !same_component(&x[i], &y[i]) {
            return component_before(&x[i], &y[i]);
        }
        assert(p.skip(i as int).skip(1) =~= p.skip(i + 1));
        assert(q.skip(i as int).skip(1) =~= q.skip(i + 1));
        i += 1;
    }
    i < y.len()
}

/// A path below another: `rel` itself where it is absolute, else the two with a
/// separator between them.
pub open spec fn joined(base: Seq<char>, rel: Seq<char>) -> Seq<char> {
    if is_rooted(rel) {
        rel
    } else if base.len() == 0 || base.last() == '/' {
        base + rel
    } else {
        base + seq!['/'] + rel
    }
}

/// A path below another.
pub fn join_paths(base: &str, rel: &str) -> (r: String)
    ensures
        r@ == joined(base@, rel@),
{
    if absolute(rel) {
        return rel.to_owned();
    }
    let cs = chars_of(base);
    let mut out = base.to_owned();
    if cs.len() > 0 && cs[cs.len() - 1] != '/' {
        out.push('/');
        assert(out@ =~= base@ + seq!['/']);
    }
    out.append(rel);
    out
}

/// The name that a path ends in, if it ends in one.
pub open spec fn file_name_of(p: Seq<char>) -> Option<Seq<char>> {
    if parts(p).len() == 0 {
        None
    } else {
        match parts(p).last() {
            Part::Name(n) => Some(n),
            _ => None,
        }
    }
}

proof fn lemma_names_unbroken(pieces: Seq<Seq<char>>, k: int, i: int)
    requires
        0 <= k,
        forall|m: int, j: int| 0 <= m < pieces.len() && 0 <= j < pieces[m].len() ==> pieces[m][j] != '/',
        0 <= i < parts_from(pieces, k).len(),
    ensures
        parts_from(pieces, k)[i] matches Part::Name(n) ==> !n.contains('/'),
    decreases pieces.len() - k,
{
    if k < pieces.len() {
        match part_of(pieces[k], k) {
            Some(part) => {
                if i > 0 {
                    lemma_names_unbroken(pieces, k + 1, i - 1);
                }
            },
            None => {
                lemma_names_unbroken(pieces, k + 1, i);
            },
        }
    }
}

/// The name that a path ends in has no separator in it.
pub proof fn lemma_file_name_unbroken(p: Seq<char>)
    ensures
        file_name_of(p) matches Some(n) ==> !n.contains('/'),
{
    let pieces = split_on(p, '/');
    lemma_split_join(p, '/');
    let named = parts_from(pieces, 0);
    if parts(p).len() > 0 && parts(p).last() is Name {
        assert(parts(p).last() == named.last());
        lemma_names_unbroken(pieces, 0, named.len() - 1);
    }
}

/// The name that a path ends in, if it ends in one.
pub fn file_name(p: &str) -> (r: Option<String>)
    ensures
        text_view(r) == file_name_of(p@),
{
    let cs = components(p);
    if cs.len() == 0 {
        return None;
    }
    assert(parts(p@).last() == cs@.last()@);
    match &cs[cs.len() - 1] {
        Component::Name(n) => Some(n.clone()),
        _ => None,
    }
}

/// A part as it is written in a path.
pub open spec fn part_text(p: Part) -> Seq<char> {
    match p {
        Part::Root => seq!['/'],
        Part::Here => seq!['.'],
        Part::Up => seq!['.', '.'],
        Part::Name(n) => n,
    }
}

/// The parts of a path as they are written, with `/` between them.
pub open spec fn slashed(ps: Seq<Part>) -> Seq<char> {
    join_with(ps.map_values(|p: Part| part_text(p)), seq!['/'])
}

/// A part as it is written in a path.
pub fn component_text(c: &Component) -> (r: String)
    ensures
        r@ == part_text(c@),
{
    let mut out = String::new();
    match c {
        Component::Root => {
            out.push('/');
        },
        Component::Here => {
            out.push('.');
        },
        Component::Up => {
            out.push('.');
            out.push('.');
        },
        Component::Name(n) => {
            return n.clone();
        },
    }
    assert(out@ =~= part_text(c@));
    out
}

/// The components from `from` on as they are written, with `/` between them.
pub fn slash_join(cs: &Vec<Component>, from: usize) -> (r: String)
    requires
        from <= cs@.len(),
    ensures
        r@ == slashed(component_parts(cs@).skip(from as int)),
{
    let mut names: Vec<String> = Vec::new();
    let ghost ps = component_parts(cs@).skip(from as int);
    for i in from..cs.len()
        invariant
            from <= i,
            from <= cs@.len(),
            ps == component_parts(cs@).skip(from as int),
            texts(names@) =~= ps.take(i - from).map_values(|p: Part| part_text(p)),
    {
        let name = component_text(&cs[i]);
        assert(ps[i - from] == cs@[i as int]@);
        let ghost before = texts(names@);
        names.push(name);
        assert(texts(names@) =~= before.push(name@));
    }
    assert(ps.take(cs@.len() - from) =~= ps);
    let mut sep = String::new();
    sep.push('/');
    assert(sep@ =~= seq!['/']);
    join(&names, sep.as_str())
}

} // verus!
