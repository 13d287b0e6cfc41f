//! Bytes as a command printed them.

use vstd::prelude::*;
use vstd::slice::slice_subrange;
use vstd::utf8::{decode_utf8, valid_utf8};

use crate::seqs::{index_of, lemma_index_is, split_on};
use crate::text::{trim_newlines, without_newlines};

verus! {

/// The byte that separates records and fields where text could hold any other.
pub const NUL: u8 = 0;

pub const SPACE: u8 = 0x20;

pub const DOT: u8 = 0x2e;

pub const DIGIT_1: u8 = 0x31;

pub const DIGIT_2: u8 = 0x32;

pub const QUESTION: u8 = 0x3f;

pub const UPPER_A: u8 = 0x41;

pub const UPPER_C: u8 = 0x43;

pub const UPPER_D: u8 = 0x44;

pub const UPPER_M: u8 = 0x4d;

pub const UPPER_R: u8 = 0x52;

pub const UPPER_S: u8 = 0x53;

pub const UPPER_U: u8 = 0x55;

pub const LOWER_U: u8 = 0x75;

/// What `String::from_utf8_lossy` reads out of bytes.
pub uninterp spec fn lossy_text(bytes: Seq<u8>) -> Seq<char>;

/// `String::from_utf8_lossy`: the text that the bytes encode where they are
/// UTF-8, and some text, the same for the same bytes, where they are not.
///
/// What stands in place of bytes that are not UTF-8 is left unsaid.
#[verifier::external_body]
pub(crate) fn decode(bytes: &[u8]) -> (r: String)
    ensures
        r@ == lossy_text(bytes@),
        valid_utf8(bytes@) ==> r@ == decode_utf8(bytes@),
{
    String::from_utf8_lossy(bytes).into_owned()
}

/// The bytes of each slice in turn.
pub open spec fn slices(v: Seq<&[u8]>) -> Seq<Seq<u8>> {
    v.map_values(|s: &[u8]| s@)
}

/// The bytes of an optional slice.
pub open spec fn slice_view(o: Option<&[u8]>) -> Option<Seq<u8>> {
    match o {
        Some(s) => Some(s@),
        None => None,
    }
}

/// The first position at or after `from` that holds `b`, or the end.
pub fn find_byte(buf: &[u8], from: usize, b: u8) -> (r: usize)
    requires
        from <= buf@.len(),
    ensures
        from <= r <= buf@.len(),
        r - from == index_of(buf@.skip(from as int), b),
{
    let ghost rest = buf@.skip(from as int);
    let mut i: usize = from;
    while i < buf.len() && buf[i] != b
        invariant
            from <= i <= buf@.len(),
            rest == buf@.skip(from as int),
            forall|j: int| 0 <= j < i - from ==> rest[j] != b,
        decreases buf@.len() - i,
    {
        i += 1;
    }
    proof {
        lemma_index_is(rest, b, i - from);
    }
    i
}

/// The pieces of the bytes between the occurrences of one of them.
pub fn split_bytes<'a>(buf: &'a [u8], sep: u8) -> (r: Vec<&'a [u8]>)
    ensures
        slices(r@) == split_on(buf@, sep),
{
    let mut out: Vec<&'a [u8]> = Vec::new();
    let mut from: usize = 0;
    assert(buf@.skip(0) =~= buf@);
    loop
        invariant
            from <= buf@.len(),
            split_on(buf@, sep) =~= slices(out@) + split_on(buf@.skip(from as int), sep),
        decreases buf@.len() - from,
    {
        let at: usize = find_byte(buf, from, sep);
        let piece = slice_subrange(buf, from, at);
        let ghost rest = buf@.skip(from as int);
        let ghost before = slices(out@);
        proof {
            assert(piece@ =~= rest.take(at - from));
        }
        out.push(piece);
        proof {
            assert(slices(out@) =~= before.push(piece@));
        }
        if at == buf.len() {
            proof {
                assert(rest.take(at - from) =~= rest);
                assert(slices(out@) =~= before + seq![rest]);
            }
            return out;
        }
        proof {
            assert(rest.skip(at - from + 1) =~= buf@.skip(at + 1));
        }
        from = at + 1;
    }
}

/// A field as text, without the newlines that git puts between records.
pub open spec fn field_text(field: Seq<u8>) -> Seq<char> {
    without_newlines(lossy_text(field))
}

/// A field as text, without the newlines that git puts between records.
///
/// The record separator is the NUL; the newline is git's own line ending on the
/// format string and belongs to no field.
pub fn text_of_field(field: &[u8]) -> (r: String)
    ensures
        r@ == field_text(field@),
{
    let text = decode(field);
    trim_newlines(text.as_str())
}

} // verus!
