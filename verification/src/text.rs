//! Text as a sequence of characters: finding, splitting, trimming, and numbers
//! written in it.
//!
//! Every function says what it returns over the characters of its arguments.

use vstd::prelude::*;
use vstd::string::*;
use vstd::utf8::{encode_scalar, encode_utf8};

use crate::seqs::{index_of, join_with, lemma_index_is, lemma_join_push, split_on};

pub mod reading;

verus! {

/// `String::push`: the character is put at the end.
pub assume_specification[ String::push ](s: &mut String, c: char)
    ensures
        final(s)@ == old(s)@.push(c),
;

/// `String::is_empty`: whether there is no character.
pub assume_specification[ String::is_empty ](s: &String) -> (r: bool)
    ensures
        r == (s@.len() == 0),
;

/// What `char::is_alphanumeric` says of a character.
pub uninterp spec fn alphanumeric(c: char) -> bool;

/// An ASCII letter or digit.
pub open spec fn ascii_alphanumeric(c: char) -> bool {
    '0' <= c <= '9' || 'A' <= c <= 'Z' || 'a' <= c <= 'z'
}

/// `char::is_alphanumeric`: whether Unicode calls the character alphabetic or
/// numeric. Among the ASCII characters these are the letters and the digits;
/// which others they are is left unsaid.
pub assume_specification[ char::is_alphanumeric ](c: char) -> (r: bool)
    ensures
        r == alphanumeric(c),
        c as u32 <= 0x7f ==> r == ascii_alphanumeric(c),
;

/// What `char::is_uppercase` says of a character.
pub uninterp spec fn uppercase(c: char) -> bool;

/// `char::is_uppercase`: whether Unicode calls the character upper-case. Among
/// the ASCII characters these are the capital letters; which others they are is
/// left unsaid.
pub assume_specification[ char::is_uppercase ](c: char) -> (r: bool)
    ensures
        r == uppercase(c),
        c as u32 <= 0x7f ==> r == ('A' <= c <= 'Z'),
;

/// What `char::to_lowercase` makes of a character.
pub uninterp spec fn lowercase_of(c: char) -> Seq<char>;

/// A letter in lower case, if it is an ASCII capital.
pub open spec fn ascii_lower(c: char) -> char {
    if 'A' <= c <= 'Z' {
        ((c as u8) + 32) as u8 as char
    } else {
        c
    }
}

/// `char::to_lowercase`: the characters of the lower-case form. Of an ASCII
/// character that is one character, the small letter of a capital; what it is
/// of others is left unsaid.
#[verifier::external_body]
pub(crate) fn lower_case(c: char) -> (r: String)
    ensures
        r@ == lowercase_of(c),
        c as u32 <= 0x7f ==> r@ == seq![ascii_lower(c)],
{
    c.to_lowercase().collect()
}

/// A letter in lower case, if it is an ASCII capital.
pub fn to_ascii_lower(c: char) -> (r: char)
    ensures
        r == ascii_lower(c),
{
    if 'A' <= c && c <= 'Z' {
        (c as u8 + 32) as char
    } else {
        c
    }
}

/// The characters of each text in turn.
pub open spec fn texts(v: Seq<String>) -> Seq<Seq<char>> {
    v.map_values(|s: String| s@)
}

/// White space, as Unicode's `White_Space` property has it.
pub open spec fn is_space(c: char) -> bool {
    let u = c as u32;
    ||| 0x09 <= u <= 0x0d
    ||| u == 0x20
    ||| u == 0x85
    ||| u == 0xa0
    ||| u == 0x1680
    ||| 0x2000 <= u <= 0x200a
    ||| u == 0x2028
    ||| u == 0x2029
    ||| u == 0x202f
    ||| u == 0x205f
    ||| u == 0x3000
}

/// Whether a character is white space.
pub fn space(c: char) -> (r: bool)
    ensures
        r == is_space(c),
{
    let u: u32 = c as u32;
    (0x09 <= u && u <= 0x0d) || u == 0x20 || u == 0x85 || u == 0xa0 || u == 0x1680 || (0x2000 <= u
        && u <= 0x200a) || u == 0x2028 || u == 0x2029 || u == 0x202f || u == 0x205f || u == 0x3000
}

/// A control character: the C0 set, DEL, and the C1 set.
pub open spec fn is_control(c: char) -> bool {
    let u = c as u32;
    u <= 0x1f || 0x7f <= u <= 0x9f
}

/// Whether a character is a control character.
pub fn control(c: char) -> (r: bool)
    ensures
        r == is_control(c),
{
    let u: u32 = c as u32;
    u <= 0x1f || (0x7f <= u && u <= 0x9f)
}

/// An ASCII decimal digit.
pub open spec fn is_digit(c: char) -> bool {
    '0' <= c <= '9'
}

/// The characters of a text.
pub fn chars_of(s: &str) -> (r: Vec<char>)
    ensures
        r@ == s@,
{
    let mut out: Vec<char> = Vec::new();
    for c in it: s.chars()
        invariant
            it.seq() == s@,
            out@ == s@.take(it.index() as int),
    {
        out.push(c);
    }
    out
}

/// The text that a run of characters spells.
pub fn text_of(cs: &[char]) -> (r: String)
    ensures
        r@ == cs@,
{
    let mut out = String::new();
    for i in 0..cs.len()
        invariant
            out@ == cs@.take(i as int),
    {
        out.push(cs[i]);
        assert(cs@.take(i as int + 1) =~= cs@.take(i as int).push(cs@[i as int]));
    }
    assert(cs@.take(cs@.len() as int) =~= cs@);
    out
}

/// The text that the characters from `from` up to `to` spell.
pub fn text_between(cs: &Vec<char>, from: usize, to: usize) -> (r: String)
    requires
        from <= to <= cs@.len(),
    ensures
        r@ == cs@.subrange(from as int, to as int),
{
    let mut out = String::new();
    for i in from..to
        invariant
            to <= cs@.len(),
            from <= i,
            out@ == cs@.subrange(from as int, i as int),
    {
        out.push(cs[i]);
        assert(cs@.subrange(from as int, i as int + 1) =~= cs@.subrange(from as int, i as int).push(
            cs@[i as int],
        ));
    }
    out
}

/// The first position at or after `from` that holds `c`, or the end.
pub fn find_from(cs: &Vec<char>, from: usize, c: char) -> (r: usize)
    requires
        from <= cs@.len(),
    ensures
        from <= r <= cs@.len(),
        r - from == index_of(cs@.skip(from as int), c),
{
    let ghost rest = cs@.skip(from as int);
    let mut i: usize = from;
    while i < cs.len() && cs[i] != c
        invariant
            from <= i <= cs@.len(),
            rest == cs@.skip(from as int),
            forall|j: int| 0 <= j < i - from ==> rest[j] != c,
        decreases cs@.len() - i,
    {
        i += 1;
    }
    proof {
        lemma_index_is(rest, c, i - from);
    }
    i
}

/// Whether two texts hold the same characters.
pub fn same(a: &str, b: &str) -> (r: bool)
    ensures
        r == (a@ == b@),
{
    let x = chars_of(a);
    let y = chars_of(b);
    same_chars(&x, &y)
}

/// Whether two runs of characters are the same.
pub fn same_chars(x: &Vec<char>, y: &Vec<char>) -> (r: bool)
    ensures
        r == (x@ == y@),
{
    if x.len() != y.len() {
        return false;
    }
    for i in 0..x.len()
        invariant
            x@.len() == y@.len(),
            forall|j: int| 0 <= j < i ==> x@[j] == y@[j],
    {
        if x[i] != y[i] {
            return false;
        }
    }
    assert(x@ =~= y@);
    true
}

/// The pieces of a text between the occurrences of a character.
pub fn split(s: &str, sep: char) -> (r: Vec<String>)
    ensures
        texts(r@) == split_on(s@, sep),
{
    let cs = chars_of(s);
    let mut out: Vec<String> = Vec::new();
    let mut from: usize = 0;
    assert(cs@.skip(0) =~= cs@);
    loop
        invariant
            cs@ == s@,
            from <= cs@.len(),
            split_on(s@, sep) == texts(out@) + split_on(cs@.skip(from as int), sep),
        decreases cs@.len() - from,
    {
        let at: usize = find_from(&cs, from, sep);
        let piece = text_between(&cs, from, at);
        let ghost rest = cs@.skip(from as int);
        let ghost before = texts(out@);
        proof {
            assert(piece@ =~= rest.take(at - from));
        }
        out.push(piece);
        proof {
            assert(texts(out@) =~= before.push(piece@));
        }
        if at == cs.len() {
            proof {
                assert(rest.take(at - from) =~= rest);
                assert(texts(out@) =~= before + seq![rest]);
            }
            return out;
        }
        proof {
            assert(rest.skip(at - from + 1) =~= cs@.skip(at + 1));
            assert(before + (seq![piece@] + split_on(cs@.skip(at + 1), sep)) =~= texts(out@)
                + split_on(cs@.skip(at + 1), sep));
        }
        from = at + 1;
    }
}

/// The lines of a text: each ends at a newline, which is not part of it, nor is
/// a carriage return right before that newline. Text after the last newline is
/// a line of its own, unless there is none.
pub open spec fn lines_of(s: Seq<char>) -> Seq<Seq<char>>
    decreases s.len(),
{
    let i = index_of(s, '\n');
    if i < s.len() {
        seq![without_return(s.take(i as int))] + lines_of(s.skip(i as int + 1))
    } else if s.len() == 0 {
        Seq::empty()
    } else {
        seq![s]
    }
}

/// A line without the carriage return at its end, if it has one.
pub open spec fn without_return(s: Seq<char>) -> Seq<char> {
    if s.len() > 0 && s.last() == '\r' {
        s.drop_last()
    } else {
        s
    }
}

/// The lines of a text.
pub fn lines(s: &str) -> (r: Vec<String>)
    ensures
        texts(r@) == lines_of(s@),
{
    let cs = chars_of(s);
    let mut out: Vec<String> = Vec::new();
    let mut from: usize = 0;
    assert(cs@.skip(0) =~= cs@);
    assert(texts(out@) =~= Seq::<Seq<char>>::empty());
    while from < cs.len()
        invariant
            cs@ == s@,
            from <= cs@.len(),
            lines_of(s@) =~= texts(out@) + lines_of(cs@.skip(from as int)),
        decreases cs@.len() - from,
    {
        let at: usize = find_from(&cs, from, '\n');
        let ghost rest = cs@.skip(from as int);
        let ghost before = texts(out@);
        if at == cs.len() {
            let piece = text_between(&cs, from, at);
            assert(piece@ =~= rest);
            out.push(piece);
            assert(texts(out@) =~= before.push(piece@));
            from = at;
            assert(cs@.skip(at as int) =~= Seq::<char>::empty());
        } else {
            let to: usize = if at > from && cs[at - 1] == '\r' {
                at - 1
            } else {
                at
            };
            let piece = text_between(&cs, from, to);
            proof {
                let line = rest.take(at - from);
                if at > from {
                    assert(line.last() == cs@[at - 1]);
                }
                assert(piece@ =~= without_return(line));
                assert(rest.skip(at - from + 1) =~= cs@.skip(at + 1));
            }
            out.push(piece);
            assert(texts(out@) =~= before.push(piece@));
            from = at + 1;
        }
    }
    assert(cs@.skip(from as int) =~= Seq::<char>::empty());
    out
}

/// What is left of a text without the characters at its front that satisfy `p`.
pub open spec fn trim_front(s: Seq<char>, p: spec_fn(char) -> bool) -> Seq<char>
    decreases s.len(),
{
    if s.len() > 0 && p(s[0]) {
        trim_front(s.skip(1), p)
    } else {
        s
    }
}

/// What is left of a text without the characters at its end that satisfy `p`.
pub open spec fn trim_back(s: Seq<char>, p: spec_fn(char) -> bool) -> Seq<char>
    decreases s.len(),
{
    if s.len() > 0 && p(s.last()) {
        trim_back(s.drop_last(), p)
    } else {
        s
    }
}

/// A text without the white space at its two ends.
pub open spec fn trimmed(s: Seq<char>) -> Seq<char> {
    trim_back(trim_front(s, |c: char| is_space(c)), |c: char| is_space(c))
}

/// A text without the white space at its end.
pub open spec fn trimmed_end(s: Seq<char>) -> Seq<char> {
    trim_back(s, |c: char| is_space(c))
}

proof fn lemma_trim_front(s: Seq<char>, p: spec_fn(char) -> bool, i: int)
    requires
        0 <= i <= s.len(),
        forall|j: int| 0 <= j < i ==> p(s[j]),
        i < s.len() ==> !p(s[i]),
    ensures
        trim_front(s, p) == s.skip(i),
    decreases i,
{
    if i > 0 {
        let rest = s.skip(1);
        assert forall|j: int| 0 <= j < i - 1 implies p(rest[j]) by {
            assert(p(s[j + 1]));
        }
        lemma_trim_front(rest, p, i - 1);
        assert(rest.skip(i - 1) =~= s.skip(i));
    } else {
        assert(s.skip(0) =~= s);
    }
}

proof fn lemma_trim_back(s: Seq<char>, p: spec_fn(char) -> bool, i: int)
    requires
        0 <= i <= s.len(),
        forall|j: int| i <= j < s.len() ==> p(s[j]),
        i > 0 ==> !p(s[i - 1]),
    ensures
        trim_back(s, p) == s.take(i),
    decreases s.len(),
{
    if i < s.len() {
        lemma_trim_back(s.drop_last(), p, i);
        assert(s.drop_last().take(i) =~= s.take(i));
    } else {
        assert(s.take(i) =~= s);
    }
}

/// Where the text starts once its leading white space is left out.
fn space_front(cs: &Vec<char>, to: usize) -> (r: usize)
    requires
        to <= cs@.len(),
    ensures
        r <= to,
        trim_front(cs@.take(to as int), |c: char| is_space(c)) == cs@.subrange(r as int, to as int),
{
    let ghost p = |c: char| is_space(c);
    let ghost whole = cs@.take(to as int);
    let mut i: usize = 0;
    while i < to && space(cs[i])
        invariant
            i <= to <= cs@.len(),
            whole == cs@.take(to as int),
            p == (|c: char| is_space(c)),
            forall|j: int| 0 <= j < i ==> p(whole[j]),
        decreases to - i,
    {
        i += 1;
    }
    proof {
        lemma_trim_front(whole, p, i as int);
        assert(whole.skip(i as int) =~= cs@.subrange(i as int, to as int));
    }
    i
}

/// Where the text ends once its trailing white space is left out.
fn space_back(cs: &Vec<char>, from: usize) -> (r: usize)
    requires
        from <= cs@.len(),
    ensures
        from <= r <= cs@.len(),
        trim_back(cs@.skip(from as int), |c: char| is_space(c)) == cs@.subrange(
            from as int,
            r as int,
        ),
{
    let ghost p = |c: char| is_space(c);
    let ghost whole = cs@.skip(from as int);
    let mut i: usize = cs.len();
    while i > from && space(cs[i - 1])
        invariant
            from <= i <= cs@.len(),
            whole == cs@.skip(from as int),
            p == (|c: char| is_space(c)),
            forall|j: int| i - from <= j < whole.len() ==> p(whole[j]),
        decreases i,
    {
        i -= 1;
    }
    proof {
        lemma_trim_back(whole, p, i - from);
        assert(whole.take(i - from) =~= cs@.subrange(from as int, i as int));
    }
    i
}

/// A text without the white space at its two ends.
pub fn trim(s: &str) -> (r: String)
    ensures
        r@ == trimmed(s@),
{
    let cs = chars_of(s);
    let from: usize = space_front(&cs, cs.len());
    let to: usize = space_back(&cs, from);
    proof {
        assert(cs@.take(cs@.len() as int) =~= cs@);
        assert(cs@.subrange(from as int, cs@.len() as int) =~= cs@.skip(from as int));
    }
    text_between(&cs, from, to)
}

/// A text without the white space at its end.
pub fn trim_end(s: &str) -> (r: String)
    ensures
        r@ == trimmed_end(s@),
{
    let cs = chars_of(s);
    let to: usize = space_back(&cs, 0);
    proof {
        assert(cs@.skip(0) =~= cs@);
    }
    text_between(&cs, 0, to)
}

/// A text without the newlines at its two ends.
pub open spec fn without_newlines(s: Seq<char>) -> Seq<char> {
    trim_back(trim_front(s, |c: char| c == '\n'), |c: char| c == '\n')
}

/// A text without the newlines at its two ends.
pub fn trim_newlines(s: &str) -> (r: String)
    ensures
        r@ == without_newlines(s@),
{
    let cs = chars_of(s);
    let ghost p = |c: char| c == '\n';
    let mut from: usize = 0;
    while from < cs.len() && cs[from] == '\n'
        invariant
            from <= cs@.len(),
            p == (|c: char| c == '\n'),
            forall|j: int| 0 <= j < from ==> p(cs@[j]),
        decreases cs@.len() - from,
    {
        from += 1;
    }
    let ghost whole = cs@.skip(from as int);
    let mut to: usize = cs.len();
    while to > from && cs[to - 1] == '\n'
        invariant
            from <= to <= cs@.len(),
            whole == cs@.skip(from as int),
            p == (|c: char| c == '\n'),
            forall|j: int| to - from <= j < whole.len() ==> p(whole[j]),
        decreases to,
    {
        to -= 1;
    }
    proof {
        lemma_trim_front(cs@, p, from as int);
        lemma_trim_back(whole, p, to - from);
        assert(whole.take(to - from) =~= cs@.subrange(from as int, to as int));
    }
    text_between(&cs, from, to)
}

/// What follows `prefix` at the front of `s`, if `s` starts with it.
pub open spec fn after_prefix(s: Seq<char>, prefix: Seq<char>) -> Option<Seq<char>> {
    if prefix.is_prefix_of(s) {
        Some(s.skip(prefix.len() as int))
    } else {
        None
    }
}

/// What precedes `suffix` at the end of `s`, if `s` ends with it.
pub open spec fn before_suffix(s: Seq<char>, suffix: Seq<char>) -> Option<Seq<char>> {
    if suffix.is_suffix_of(s) {
        Some(s.take(s.len() - suffix.len()))
    } else {
        None
    }
}

/// The characters of an optional text.
pub open spec fn text_view(o: Option<String>) -> Option<Seq<char>> {
    match o {
        Some(s) => Some(s@),
        None => None,
    }
}

/// Whether `w` stands in `s` at position `i`.
pub open spec fn occurs_at(s: Seq<char>, w: Seq<char>, i: int) -> bool {
    0 <= i && i + w.len() <= s.len() && s.subrange(i, i + w.len()) == w
}

/// Whether `w` stands in `s` at position `i`.
pub fn stands_at(s: &Vec<char>, w: &Vec<char>, i: usize) -> (r: bool)
    ensures
        r == occurs_at(s@, w@, i as int),
{
    if w.len() > s.len() || i > s.len() - w.len() {
        return false;
    }
    for j in 0..w.len()
        invariant
            i + w.len() <= s.len(),
            forall|k: int| 0 <= k < j ==> s@[i + k] == w@[k],
    {
        if s[i + j] != w[j] {
            assert(s@.subrange(i as int, i + w@.len())[j as int] == s@[i + j]);
            return false;
        }
    }
    assert(s@.subrange(i as int, i + w@.len()) =~= w@);
    true
}

/// What follows `prefix` at the front of `s`, if `s` starts with it.
pub fn strip_prefix(s: &str, prefix: &str) -> (r: Option<String>)
    ensures
        text_view(r) == after_prefix(s@, prefix@),
{
    let cs = chars_of(s);
    let ps = chars_of(prefix);
    if stands_at(&cs, &ps, 0) {
        proof {
            assert(prefix@.is_prefix_of(s@)) by {
                assert(s@.subrange(0, ps@.len() as int) == ps@);
            }
            assert(cs@.subrange(ps@.len() as int, cs@.len() as int) =~= cs@.skip(ps@.len() as int));
        }
        Some(text_between(&cs, ps.len(), cs.len()))
    } else {
        proof {
            if prefix@.is_prefix_of(s@) {
                assert(s@.subrange(0, ps@.len() as int) =~= ps@);
            }
        }
        None
    }
}

/// Whether a text starts with another.
pub fn starts_with(s: &str, prefix: &str) -> (r: bool)
    ensures
        r == prefix@.is_prefix_of(s@),
{
    strip_prefix(s, prefix).is_some()
}

/// What precedes `suffix` at the end of `s`, if `s` ends with it.
pub fn strip_suffix(s: &str, suffix: &str) -> (r: Option<String>)
    ensures
        text_view(r) == before_suffix(s@, suffix@),
{
    let cs = chars_of(s);
    let ps = chars_of(suffix);
    if ps.len() <= cs.len() && stands_at(&cs, &ps, cs.len() - ps.len()) {
        proof {
            assert(cs@.subrange(0, cs@.len() - ps@.len()) =~= cs@.take(cs@.len() - ps@.len()));
        }
        Some(text_between(&cs, 0, cs.len() - ps.len()))
    } else {
        None
    }
}

/// The first position at or after `from` where `w` stands in `s`, if any.
pub open spec fn first_at(s: Seq<char>, w: Seq<char>, from: int) -> Option<int>
    decreases s.len() + 1 - from,
{
    if from < 0 || from + w.len() > s.len() {
        None
    } else if occurs_at(s, w, from) {
        Some(from)
    } else {
        first_at(s, w, from + 1)
    }
}

/// The first position at or after `from` where `w` stands in `s`, if any.
pub fn find_text_from(s: &Vec<char>, w: &Vec<char>, from: usize) -> (r: Option<usize>)
    requires
        from <= s@.len(),
    ensures
        match r {
            Some(i) => first_at(s@, w@, from as int) == Some(i as int),
            None => first_at(s@, w@, from as int) is None,
        },
        r matches Some(i) ==> from <= i && i + w@.len() <= s.len(),
{
    let mut i: usize = from;
    while w.len() <= s.len() && i <= s.len() - w.len()
        invariant
            from <= i,
            from <= s@.len(),
            first_at(s@, w@, from as int) == first_at(s@, w@, i as int),
        decreases s@.len() + 1 - i,
    {
        if stands_at(s, w, i) {
            return Some(i);
        }
        proof {
            if i == s.len() {
                assert(s@.subrange(i as int, i + w@.len()) =~= w@);
            }
        }
        i += 1;
    }
    None
}

/// `first_at` is the least position where `w` stands.
pub proof fn lemma_first_at(s: Seq<char>, w: Seq<char>, from: int)
    requires
        0 <= from,
    ensures
        match first_at(s, w, from) {
            Some(i) => from <= i && occurs_at(s, w, i) && forall|j: int|
                from <= j < i ==> !occurs_at(s, w, j),
            None => forall|j: int| from <= j ==> !occurs_at(s, w, j),
        },
    decreases s.len() + 1 - from,
{
    if from + w.len() > s.len() {
    } else if occurs_at(s, w, from) {
    } else {
        lemma_first_at(s, w, from + 1);
    }
}

/// Whether `w` stands anywhere in `s`.
pub open spec fn has_text(s: Seq<char>, w: Seq<char>) -> bool {
    exists|i: int| occurs_at(s, w, i)
}

/// Whether `w` stands anywhere in `s`.
pub fn contains(s: &str, w: &str) -> (r: bool)
    ensures
        r == has_text(s@, w@),
{
    let cs = chars_of(s);
    let ws = chars_of(w);
    proof {
        lemma_first_at(cs@, ws@, 0);
        if has_text(s@, w@) {
            let i = choose|i: int| occurs_at(s@, w@, i);
            assert(0 <= i);
        }
    }
    find_text_from(&cs, &ws, 0).is_some()
}

/// The two sides of the first `sep`, if there is one.
pub open spec fn halves(s: Seq<char>, sep: char) -> Option<(Seq<char>, Seq<char>)> {
    let i = index_of(s, sep);
    if i < s.len() {
        Some((s.take(i as int), s.skip(i as int + 1)))
    } else {
        None
    }
}

/// The two sides of the first `sep`, if there is one.
pub fn split_once(s: &str, sep: char) -> (r: Option<(String, String)>)
    ensures
        match r {
            Some((a, b)) => halves(s@, sep) == Some((a@, b@)),
            None => halves(s@, sep) is None,
        },
{
    let cs = chars_of(s);
    let at: usize = find_from(&cs, 0, sep);
    proof {
        assert(cs@.skip(0) =~= cs@);
    }
    if at < cs.len() {
        let a = text_between(&cs, 0, at);
        let b = text_between(&cs, at + 1, cs.len());
        proof {
            assert(a@ =~= s@.take(at as int));
            assert(b@ =~= s@.skip(at as int + 1));
        }
        Some((a, b))
    } else {
        None
    }
}

/// The texts one after another with `sep` between them.
pub fn join(parts: &Vec<String>, sep: &str) -> (r: String)
    ensures
        r@ == join_with(texts(parts@), sep@),
{
    let mut out = String::new();
    proof {
        assert(texts(parts@.take(0)) =~= Seq::<Seq<char>>::empty());
    }
    for i in 0..parts.len()
        invariant
            out@ == join_with(texts(parts@.take(i as int)), sep@),
    {
        if i > 0 {
            out.append(sep);
        }
        out.append(parts[i].as_str());
        proof {
            let done = texts(parts@.take(i as int));
            assert(texts(parts@.take(i as int + 1)) =~= done.push(parts@[i as int]@));
            lemma_join_push(done, parts@[i as int]@, sep@);
            if i == 0 {
                assert(done =~= Seq::<Seq<char>>::empty());
                assert(out@ =~= parts@[i as int]@);
            }
        }
    }
    proof {
        assert(parts@.take(parts@.len() as int) =~= parts@);
    }
    out
}

/// The digit that stands for a number below ten.
pub open spec fn digit_char(d: nat) -> char {
    ((48 + d) as u8) as char
}

/// A number written in decimal, without leading zeros.
pub open spec fn decimal_of(n: nat) -> Seq<char>
    decreases n,
{
    if n < 10 {
        seq![digit_char(n)]
    } else {
        decimal_of(n / 10).push(digit_char(n % 10))
    }
}

/// A number written in decimal.
pub fn decimal(n: u64) -> (r: String)
    ensures
        r@ == decimal_of(n as nat),
    decreases n,
{
    if n < 10 {
        let mut out = String::new();
        out.push((48 + n as u8) as char);
        assert(out@ =~= decimal_of(n as nat));
        out
    } else {
        let mut out = decimal(n / 10);
        let d: u8 = (n % 10) as u8;
        out.push((48 + d) as char);
        out
    }
}

/// What a run of decimal digits is worth.
pub open spec fn digits_value(s: Seq<char>) -> nat
    decreases s.len(),
{
    if s.len() == 0 {
        0
    } else {
        10 * digits_value(s.drop_last()) + (s.last() as u32 - 48) as nat
    }
}

/// A run of one or more decimal digits.
pub open spec fn all_digits(s: Seq<char>) -> bool {
    s.len() > 0 && forall|i: int| 0 <= i < s.len() ==> is_digit(#[trigger] s[i])
}

/// What a run of digits is worth, if it is one.
pub open spec fn read_digits(s: Seq<char>) -> Option<nat> {
    if all_digits(s) {
        Some(digits_value(s))
    } else {
        None
    }
}

/// The number that a text spells: digits, with a `+` before them or not.
pub open spec fn read_nat(s: Seq<char>) -> Option<nat> {
    if s.len() > 0 && s[0] == '+' {
        read_digits(s.skip(1))
    } else {
        read_digits(s)
    }
}

/// The number that a text spells: digits, with a sign before them or not.
pub open spec fn read_int(s: Seq<char>) -> Option<int> {
    if s.len() > 0 && s[0] == '-' {
        match read_digits(s.skip(1)) {
            Some(n) => Some(-(n as int)),
            None => None,
        }
    } else {
        match read_nat(s) {
            Some(n) => Some(n as int),
            None => None,
        }
    }
}

/// Reads the digits from `from` on, if what they are worth is at most `max`.
fn digits_upto(cs: &Vec<char>, from: usize, max: u64) -> (r: Option<u64>)
    requires
        from <= cs@.len(),
    ensures
        match r {
            Some(n) => read_digits(cs@.skip(from as int)) == Some(n as nat) && n <= max,
            None => read_digits(cs@.skip(from as int)) matches Some(n) ==> n > max,
        },
{
    let ghost ds = cs@.skip(from as int);
    if from == cs.len() {
        return None;
    }
    let mut acc: u64 = 0;
    let mut over: bool = false;
    let mut i: usize = from;
    proof {
        assert(ds.take(0) =~= Seq::<char>::empty());
    }
    while i < cs.len()
        invariant
            from <= i <= cs@.len(),
            ds == cs@.skip(from as int),
            forall|j: int| 0 <= j < i - from ==> is_digit(#[trigger] ds[j]),
            over ==> digits_value(ds.take(i - from)) > max,
            !over ==> digits_value(ds.take(i - from)) == acc && acc <= max,
        decreases cs@.len() - i,
    {
        let c: char = cs[i];
        if !('0' <= c && c <= '9') {
            assert(ds[i - from] == c);
            return None;
        }
        let d: u32 = c as u32 - 48;
        proof {
            assert(ds.take(i - from + 1).drop_last() =~= ds.take(i - from));
            assert(ds.take(i - from + 1).last() == c);
        }
        if !over {
            let next: u128 = acc as u128 * 10 + d as u128;
            if next > max as u128 {
                over = true;
            } else {
                acc = next as u64;
            }
        }
        i += 1;
    }
    proof {
        assert(ds.take(i - from) =~= ds);
    }
    if over {
        None
    } else {
        Some(acc)
    }
}

/// The number that a text spells, if it is at most `max`.
pub open spec fn nat_upto(s: Seq<char>, max: nat) -> Option<nat> {
    match read_nat(s) {
        Some(n) => if n <= max {
            Some(n)
        } else {
            None
        },
        None => None,
    }
}

/// The number that a text spells, if it is at most `max`.
pub fn parse_upto(s: &str, max: u64) -> (r: Option<u64>)
    ensures
        match r {
            Some(n) => nat_upto(s@, max as nat) == Some(n as nat),
            None => nat_upto(s@, max as nat) is None,
        },
{
    let cs = chars_of(s);
    if cs.len() > 0 && cs[0] == '+' {
        digits_upto(&cs, 1, max)
    } else {
        proof {
            assert(cs@.skip(0) =~= cs@);
        }
        digits_upto(&cs, 0, max)
    }
}

/// The number that a text spells, if a `u32` can hold it.
pub fn parse_u32(s: &str) -> (r: Option<u32>)
    ensures
        match r {
            Some(n) => nat_upto(s@, u32::MAX as nat) == Some(n as nat),
            None => nat_upto(s@, u32::MAX as nat) is None,
        },
{
    match parse_upto(s, u32::MAX as u64) {
        Some(n) => Some(n as u32),
        None => None,
    }
}

/// The number that a text spells, if a `usize` can hold it.
pub fn parse_usize(s: &str) -> (r: Option<usize>)
    ensures
        match r {
            Some(n) => nat_upto(s@, usize::MAX as nat) == Some(n as nat),
            None => nat_upto(s@, usize::MAX as nat) is None,
        },
{
    match parse_upto(s, usize::MAX as u64) {
        Some(n) => Some(n as usize),
        None => None,
    }
}

/// The number that a text spells, if an `i64` can hold it.
pub open spec fn i64_in(s: Seq<char>) -> Option<i64> {
    match read_int(s) {
        Some(n) => if i64::MIN <= n <= i64::MAX {
            Some(n as i64)
        } else {
            None
        },
        None => None,
    }
}

/// The number that a text spells, if an `i64` can hold it.
pub fn parse_i64(s: &str) -> (r: Option<i64>)
    ensures
        r == i64_in(s@),
{
    let cs = chars_of(s);
    if cs.len() > 0 && cs[0] == '-' {
        match digits_upto(&cs, 1, 0x8000_0000_0000_0000) {
            Some(n) => if n == 0x8000_0000_0000_0000 {
                Some(i64::MIN)
            } else {
                Some(-(n as i64))
            },
            None => None,
        }
    } else {
        match parse_upto(s, i64::MAX as u64) {
            Some(n) => Some(n as i64),
            None => None,
        }
    }
}

/// Reading back a number written in decimal gives the number.
pub proof fn decimal_reads_back(n: nat)
    ensures
        read_nat(decimal_of(n)) == Some(n),
        read_int(decimal_of(n)) == Some(n as int),
{
    lemma_decimal(n);
    let s = decimal_of(n);
    assert(is_digit(s[0]));
}

/// A number is written in digits alone, and they are worth the number.
pub proof fn lemma_decimal(n: nat)
    ensures
        all_digits(decimal_of(n)),
        digits_value(decimal_of(n)) == n,
    decreases n,
{
    let s = decimal_of(n);
    if n < 10 {
        assert(s.drop_last() =~= Seq::<char>::empty());
        assert(digits_value(s.drop_last()) == 0);
        assert(s.last() == digit_char(n));
    } else {
        lemma_decimal(n / 10);
        assert(s.drop_last() =~= decimal_of(n / 10));
        assert forall|i: int| 0 <= i < s.len() implies is_digit(#[trigger] s[i]) by {
            if i < s.len() - 1 {
                assert(s[i] == decimal_of(n / 10)[i]);
            } else {
                assert(s[i] == digit_char(n % 10));
            }
        }
    }
}

/// The position of the first white space, or the length without any.
pub open spec fn space_index(s: Seq<char>) -> nat
    decreases s.len(),
{
    if s.len() == 0 || is_space(s[0]) {
        0
    } else {
        1 + space_index(s.skip(1))
    }
}

/// The runs of characters between white space.
pub open spec fn words_of(s: Seq<char>) -> Seq<Seq<char>>
    decreases s.len(),
{
    if s.len() == 0 {
        Seq::empty()
    } else if is_space(s[0]) {
        words_of(s.skip(1))
    } else {
        proof {
            lemma_space_bound(s);
        }
        let i = space_index(s) as int;
        seq![s.take(i)] + words_of(s.skip(i))
    }
}

/// The first white space lies within the text, or at its end.
pub proof fn lemma_space_bound(s: Seq<char>)
    ensures
        space_index(s) <= s.len(),
    decreases s.len(),
{
    if s.len() > 0 && !is_space(s[0]) {
        lemma_space_bound(s.skip(1));
    }
}

proof fn lemma_space_index(s: Seq<char>, i: int)
    requires
        0 <= i <= s.len(),
        forall|j: int| 0 <= j < i ==> !is_space(#[trigger] s[j]),
        i < s.len() ==> is_space(s[i]),
    ensures
        space_index(s) == i,
    decreases i,
{
    if i > 0 {
        let rest = s.skip(1);
        assert forall|j: int| 0 <= j < i - 1 implies !is_space(#[trigger] rest[j]) by {
            assert(!is_space(s[j + 1]));
        }
        lemma_space_index(rest, i - 1);
        assert(!is_space(s[0]));
    }
}

/// The runs of characters between white space.
pub fn words(s: &str) -> (r: Vec<String>)
    ensures
        texts(r@) == words_of(s@),
{
    let cs = chars_of(s);
    let mut out: Vec<String> = Vec::new();
    let mut from: usize = 0;
    assert(cs@.skip(0) =~= cs@);
    assert(texts(out@) =~= Seq::<Seq<char>>::empty());
    while from < cs.len()
        invariant
            cs@ == s@,
            from <= cs@.len(),
            words_of(s@) =~= texts(out@) + words_of(cs@.skip(from as int)),
        decreases cs@.len() - from,
    {
        let ghost rest = cs@.skip(from as int);
        if space(cs[from]) {
            assert(rest.skip(1) =~= cs@.skip(from + 1));
            from += 1;
        } else {
            let mut to: usize = from + 1;
            while to < cs.len() && !space(cs[to])
                invariant
                    from < to <= cs@.len(),
                    rest == cs@.skip(from as int),
                    forall|j: int| 0 <= j < to - from ==> !is_space(#[trigger] rest[j]),
                decreases cs@.len() - to,
            {
                to += 1;
            }
            let word = text_between(&cs, from, to);
            let ghost before = texts(out@);
            proof {
                lemma_space_index(rest, to - from);
                assert(word@ =~= rest.take(to - from));
                assert(rest.skip(to - from) =~= cs@.skip(to as int));
            }
            out.push(word);
            assert(texts(out@) =~= before.push(word@));
            from = to;
        }
    }
    assert(cs@.skip(from as int) =~= Seq::<char>::empty());
    out
}

/// A number written in decimal, with a `-` before it where it is negative.
pub open spec fn decimal_int(n: int) -> Seq<char> {
    if n < 0 {
        seq!['-'] + decimal_of((-n) as nat)
    } else {
        decimal_of(n as nat)
    }
}

/// A number written in decimal, with a `-` before it where it is negative.
pub fn decimal_i32(n: i32) -> (r: String)
    ensures
        r@ == decimal_int(n as int),
{
    decimal_i64(n as i64)
}

/// A number written in decimal, with a `-` before it where it is negative.
pub fn decimal_i64(n: i64) -> (r: String)
    ensures
        r@ == decimal_int(n as int),
{
    if n < 0 {
        let mut out = String::new();
        out.push('-');
        let digits = decimal((-(n + 1)) as u64 + 1);
        out.append(digits.as_str());
        assert(out@ =~= decimal_int(n as int));
        out
    } else {
        decimal(n as u64)
    }
}

/// Three texts one after another.
pub fn glue(a: &str, b: &str, c: &str) -> (r: String)
    ensures
        r@ == a@ + b@ + c@,
{
    let mut out = a.to_owned();
    out.append(b);
    out.append(c);
    out
}

/// How many bytes a text takes in UTF-8.
pub open spec fn byte_len(s: Seq<char>) -> nat {
    encode_utf8(s).len()
}

/// The bytes of two texts one after another.
pub proof fn lemma_byte_len_add(a: Seq<char>, b: Seq<char>)
    ensures
        byte_len(a + b) == byte_len(a) + byte_len(b),
    decreases a.len(),
{
    if a.len() == 0 {
        assert(a + b =~= b);
    } else {
        assert((a + b).drop_first() =~= a.drop_first() + b);
        lemma_byte_len_add(a.drop_first(), b);
    }
}

/// The bytes of a text with one more character.
pub proof fn lemma_byte_len_push(a: Seq<char>, c: char)
    ensures
        byte_len(a.push(c)) == byte_len(a) + encode_scalar(c as u32).len(),
{
    let one = seq![c];
    lemma_byte_len_add(a, one);
    assert(a.push(c) =~= a + one);
    assert(one.drop_first() =~= Seq::<char>::empty());
    assert(encode_utf8(one.drop_first()) =~= Seq::<u8>::empty());
    assert(encode_utf8(one) =~= encode_scalar(c as u32));
}

/// How many bytes a character takes in UTF-8.
pub fn char_width(c: char) -> (r: usize)
    ensures
        r == encode_scalar(c as u32).len(),
        1 <= r <= 4,
{
    let u: u32 = c as u32;
    if u <= 0x7f {
        1
    } else if u <= 0x7ff {
        2
    } else if u <= 0xffff {
        3
    } else {
        4
    }
}

/// How many bytes a text takes in UTF-8.
pub fn bytes_in(s: &str) -> (r: usize)
    ensures
        r == byte_len(s@),
{
    s.as_bytes().len()
}

/// How many bytes a run of characters takes in UTF-8.
pub fn bytes_of(cs: &Vec<char>) -> (r: usize)
    requires
        byte_len(cs@) <= usize::MAX,
    ensures
        r == byte_len(cs@),
{
    let mut n: usize = 0;
    assert(cs@.take(0) =~= Seq::<char>::empty());
    for i in 0..cs.len()
        invariant
            byte_len(cs@) <= usize::MAX,
            n == byte_len(cs@.take(i as int)),
    {
        proof {
            assert(cs@.take(i + 1) =~= cs@.take(i as int).push(cs@[i as int]));
            lemma_byte_len_push(cs@.take(i as int), cs@[i as int]);
            assert(cs@ =~= cs@.take(i + 1) + cs@.skip(i + 1));
            lemma_byte_len_add(cs@.take(i + 1), cs@.skip(i + 1));
        }
        n = n + char_width(cs[i]);
    }
    assert(cs@.take(cs@.len() as int) =~= cs@);
    n
}

/// A text with every `c` replaced by `with`.
pub open spec fn replaced(s: Seq<char>, c: char, with: Seq<char>) -> Seq<char>
    decreases s.len(),
{
    if s.len() == 0 {
        Seq::empty()
    } else if s.last() == c {
        replaced(s.drop_last(), c, with) + with
    } else {
        replaced(s.drop_last(), c, with).push(s.last())
    }
}

/// A text with every `c` replaced by `with`.
pub fn replace(s: &str, c: char, with: &str) -> (r: String)
    ensures
        r@ == replaced(s@, c, with@),
{
    let cs = chars_of(s);
    let mut out = String::new();
    assert(cs@.take(0) =~= Seq::<char>::empty());
    for i in 0..cs.len()
        invariant
            cs@ == s@,
            out@ == replaced(cs@.take(i as int), c, with@),
    {
        proof {
            assert(cs@.take(i + 1).drop_last() =~= cs@.take(i as int));
        }
        if cs[i] == c {
            out.append(with);
        } else {
            out.push(cs[i]);
        }
    }
    assert(cs@.take(cs@.len() as int) =~= cs@);
    out
}

/// The lower-case hexadecimal digit that stands for a number below sixteen.
pub open spec fn hex_char(d: nat) -> char {
    if d < 10 {
        ((48 + d) as u8) as char
    } else {
        ((87 + d) as u8) as char
    }
}

/// The last `width` hexadecimal digits of a number, with zeros before them.
pub open spec fn hex_of(n: nat, width: nat) -> Seq<char>
    decreases width,
{
    if width == 0 {
        Seq::empty()
    } else {
        hex_of(n / 16, (width - 1) as nat).push(hex_char(n % 16))
    }
}

/// The last `width` hexadecimal digits of a number, with zeros before them.
pub fn hex(n: u64, width: u8) -> (r: String)
    ensures
        r@ == hex_of(n as nat, width as nat),
    decreases width,
{
    if width == 0 {
        let out = String::new();
        assert(out@ =~= hex_of(n as nat, width as nat));
        return out;
    }
    let mut out = hex(n / 16, width - 1);
    let d: u8 = (n % 16) as u8;
    if d < 10 {
        out.push((48 + d) as char);
    } else {
        out.push((87 + d) as char);
    }
    out
}

/// How many numbers so many hexadecimal digits can write.
pub open spec fn hex_reach(width: nat) -> nat
    decreases width,
{
    if width == 0 {
        1
    } else {
        16 * hex_reach((width - 1) as nat)
    }
}

/// Hexadecimal digits tell numbers apart that they are wide enough for.
pub proof fn lemma_hex_distinct(a: nat, b: nat, width: nat)
    requires
        a < hex_reach(width),
        b < hex_reach(width),
        hex_of(a, width) == hex_of(b, width),
    ensures
        a == b,
    decreases width,
{
    if width > 0 {
        let shorter = (width - 1) as nat;
        let (x, y) = (hex_of(a, width), hex_of(b, width));
        assert(hex_of(a / 16, shorter) =~= x.drop_last());
        assert(hex_of(b / 16, shorter) =~= y.drop_last());
        assert(x.last() == hex_char(a % 16));
        assert(y.last() == hex_char(b % 16));
        lemma_hex_distinct(a / 16, b / 16, shorter);
        assert(hex_char(a % 16) as u32 == if a % 16 < 10 {
            48 + a % 16
        } else {
            87 + a % 16
        });
        assert(hex_char(b % 16) as u32 == if b % 16 < 10 {
            48 + b % 16
        } else {
            87 + b % 16
        });
    }
}

/// So many hexadecimal digits are written.
pub proof fn lemma_hex_len(n: nat, width: nat)
    ensures
        hex_of(n, width).len() == width,
    decreases width,
{
    if width > 0 {
        lemma_hex_len(n / 16, (width - 1) as nat);
    }
}

/// A text with one more character.
pub fn push_char(s: &str, c: char) -> (r: String)
    ensures
        r@ == s@.push(c),
{
    let mut out = s.to_owned();
    out.push(c);
    out
}

/// A text without its last character, if it has one.
pub fn without_last(s: &str) -> (r: String)
    ensures
        r@ == (if s@.len() > 0 {
            s@.drop_last()
        } else {
            s@
        }),
{
    let cs = chars_of(s);
    if cs.len() == 0 {
        return s.to_owned();
    }
    let r = text_between(&cs, 0, cs.len() - 1);
    assert(r@ =~= s@.drop_last());
    r
}

/// What `str::to_lowercase` makes of a text.
pub uninterp spec fn lowercase_text(s: Seq<char>) -> Seq<char>;

/// `str::to_lowercase`: the lower-case form of a text, which depends on the text
/// alone. Of ASCII text it is the letters in lower case and everything else as
/// it is; the forms of other characters are left unsaid.
#[verifier::external_body]
pub(crate) fn lower_text(s: &str) -> (r: String)
    ensures
        r@ == lowercase_text(s@),
        (forall|i: int| 0 <= i < s@.len() ==> (#[trigger] s@[i]) < '\u{80}') ==> r@
            == s@.map_values(|c: char| ascii_lower(c)),
{
    s.to_lowercase()
}

} // verus!
