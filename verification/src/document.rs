//! A JSON document as plain values, and the reading of one.

use vstd::prelude::*;
use vstd::string::*;
use vstd::utf8::encode_utf8;

use crate::text::{same, text_view};

verus! {

/// A JSON value.
#[derive(Debug, PartialEq, Eq)]
pub enum Json {
    Null,
    Bool(bool),
    /// A number, where it is a whole one that a `u64` holds.
    Number(Option<u64>),
    Text(String),
    List(Vec<Json>),
    /// The members of an object, by their keys.
    Object(Vec<(String, Json)>),
}

/// `serde_json::Value`.
#[verifier::external_type_specification]
#[verifier::external_body]
pub struct ExValue(serde_json::Value);

/// `serde_json::Error`.
#[verifier::external_type_specification]
#[verifier::external_body]
pub struct ExError(serde_json::Error);

/// The value that `serde_json::from_slice` reads out of bytes, or `None` where
/// they are not a JSON document.
pub uninterp spec fn parsed_value(bytes: Seq<u8>) -> Option<serde_json::Value>;

/// `serde_json::from_slice`: the value that the bytes write down, or an error
/// where they are no JSON document. Which value it is is left unsaid; it
/// depends on the bytes alone.
#[verifier::external_body]
fn parse_value(bytes: &[u8]) -> (r: Result<serde_json::Value, serde_json::Error>)
    ensures
        match r {
            Ok(value) => parsed_value(bytes@) == Some(value),
            Err(_) => parsed_value(bytes@) is None,
        },
{
    serde_json::from_slice(bytes)
}

/// The values that `serde_json`'s stream deserializer reads out of a text.
pub uninterp spec fn parsed_stream(text: Seq<char>) -> Seq<serde_json::Value>;

/// `serde_json::Deserializer::from_str` and `into_iter`, without the errors: the
/// values that a text writes down one after another. What is no JSON ends them; a
/// number or a bare word that runs into what follows is passed over, and reading
/// goes on behind it. Which values they are is left unsaid; they depend on the
/// text alone.
#[verifier::external_body]
fn parse_stream(text: &str) -> (r: Vec<serde_json::Value>)
    ensures
        r@ == parsed_stream(text@),
{
    serde_json::Deserializer::from_str(text).into_iter().flatten().collect()
}

/// What a `serde_json::Value` holds, as plain values.
pub uninterp spec fn plain(value: serde_json::Value) -> Json;

/// The variants of `serde_json::Value`, each with what it holds: a number by
/// `Number::as_u64`, lists and objects item by item, in their order.
#[verifier::external_body]
fn converted(value: serde_json::Value) -> (r: Json)
    ensures
        r == plain(value),
{
    match value {
        serde_json::Value::Null => Json::Null,
        serde_json::Value::Bool(b) => Json::Bool(b),
        serde_json::Value::Number(n) => Json::Number(n.as_u64()),
        serde_json::Value::String(s) => Json::Text(s),
        serde_json::Value::Array(items) => Json::List(items.into_iter().map(converted).collect()),
        serde_json::Value::Object(members) => Json::Object(
            members.into_iter().map(|(key, item)| (key, converted(item))).collect(),
        ),
    }
}

/// The document that bytes write down, if they do.
pub open spec fn document(bytes: Seq<u8>) -> Option<Json> {
    match parsed_value(bytes) {
        Some(value) => Some(plain(value)),
        None => None,
    }
}

/// The documents that a text writes down one after another.
pub open spec fn documents(text: Seq<char>) -> Seq<Json> {
    parsed_stream(text).map_values(|v: serde_json::Value| plain(v))
}

/// The document that bytes write down, if they do.
pub fn read_document(bytes: &[u8]) -> (r: Option<Json>)
    ensures
        r == document(bytes@),
{
    match parse_value(bytes) {
        Ok(value) => Some(converted(value)),
        Err(_) => None,
    }
}

/// The documents that a text writes down one after another.
pub fn read_documents(text: &str) -> (r: Vec<Json>)
    ensures
        r@ == documents(text@),
{
    let values = parse_stream(text);
    let ghost all = values@;
    let mut out: Vec<Json> = Vec::new();
    for value in it: values
        invariant
            it.seq() == all,
            all == parsed_stream(text@),
            out@ =~= documents(text@).take(it.index() as int),
    {
        out.push(converted(value));
    }
    assert(documents(text@).take(documents(text@).len() as int) =~= documents(text@));
    out
}

/// The member of an object under a key, from the `k`-th member on.
pub open spec fn member_from(members: Seq<(String, Json)>, key: Seq<char>, k: int) -> Option<Json>
    decreases members.len() - k,
{
    if k < 0 || k >= members.len() {
        None
    } else if members[k].0@ == key {
        Some(members[k].1)
    } else {
        member_from(members, key, k + 1)
    }
}

/// What an object has under a key. What is no object has nothing.
pub open spec fn member(j: Json, key: Seq<char>) -> Option<Json> {
    match j {
        Json::Object(members) => member_from(members@, key, 0),
        _ => None,
    }
}

/// The text that an object has under a key, or nothing.
pub open spec fn text_at(j: Json, key: Seq<char>) -> Seq<char> {
    match member(j, key) {
        Some(Json::Text(s)) => s@,
        _ => Seq::empty(),
    }
}

/// The list that an object has under a key, if it has one.
pub open spec fn list_at(j: Json, key: Seq<char>) -> Option<Seq<Json>> {
    match member(j, key) {
        Some(Json::List(items)) => Some(items@),
        _ => None,
    }
}

/// The number that an object has under a key, if it has one.
pub open spec fn number_at(j: Json, key: Seq<char>) -> Option<u64> {
    match member(j, key) {
        Some(Json::Number(n)) => n,
        _ => None,
    }
}

fn find_member<'a>(members: &'a Vec<(String, Json)>, key: &str) -> (r: Option<&'a Json>)
    ensures
        match r {
            Some(j) => member_from(members@, key@, 0) == Some(*j),
            None => member_from(members@, key@, 0) is None,
        },
{
    for k in 0..members.len()
        invariant
            member_from(members@, key@, 0) == member_from(members@, key@, k as int),
    {
        if same(members[k].0.as_str(), key) {
            return Some(&members[k].1);
        }
    }
    None
}

impl Json {
    /// What an object has under a key.
    pub fn get(&self, key: &str) -> (r: Option<&Json>)
        ensures
            match r {
                Some(j) => member(*self, key@) == Some(*j),
                None => member(*self, key@) is None,
            },
    {
        match self {
            Json::Object(members) => find_member(members, key),
            _ => None,
        }
    }

    /// The text that an object has under a key, or nothing.
    pub fn get_text(&self, key: &str) -> (r: String)
        ensures
            r@ == text_at(*self, key@),
    {
        match self.get(key) {
            Some(Json::Text(s)) => s.clone(),
            _ => String::new(),
        }
    }

    /// The list that an object has under a key, if it has one.
    pub fn get_list(&self, key: &str) -> (r: Option<&Vec<Json>>)
        ensures
            match r {
                Some(items) => list_at(*self, key@) == Some(items@),
                None => list_at(*self, key@) is None,
            },
    {
        match self.get(key) {
            Some(Json::List(items)) => Some(items),
            _ => None,
        }
    }

    /// The number that an object has under a key, if it has one.
    pub fn get_number(&self, key: &str) -> (r: Option<u64>)
        ensures
            r == number_at(*self, key@),
    {
        match self.get(key) {
            Some(Json::Number(n)) => *n,
            _ => None,
        }
    }
}

/// What a document says, without how it is held.
pub ghost enum Doc {
    Null,
    Bool(bool),
    Number(Option<u64>),
    Text(Seq<char>),
    List(Seq<Doc>),
    Object(Seq<(Seq<char>, Doc)>),
    /// A list or an object deeper down than was looked.
    Deeper,
}

/// What a document says, as far as `depth` levels down.
pub open spec fn doc(j: Json, depth: nat) -> Doc
    decreases depth, 0nat,
{
    match j {
        Json::Null => Doc::Null,
        Json::Bool(b) => Doc::Bool(b),
        Json::Number(n) => Doc::Number(n),
        Json::Text(s) => Doc::Text(s@),
        Json::List(items) => if depth == 0 {
            Doc::Deeper
        } else {
            Doc::List(docs(items@, (depth - 1) as nat))
        },
        Json::Object(members) => if depth == 0 {
            Doc::Deeper
        } else {
            Doc::Object(member_docs(members@, (depth - 1) as nat))
        },
    }
}

/// What the items of a list say.
pub open spec fn docs(items: Seq<Json>, depth: nat) -> Seq<Doc>
    decreases depth, 1nat,
{
    Seq::new(items.len(), |i: int| doc(items[i], depth))
}

/// What the members of an object say.
pub open spec fn member_docs(members: Seq<(String, Json)>, depth: nat) -> Seq<(Seq<char>, Doc)>
    decreases depth, 1nat,
{
    Seq::new(members.len(), |i: int| (members[i].0@, doc(members[i].1, depth)))
}

/// How many levels a document may have for it to be read back.
pub const MAX_LEVELS: u8 = 100;

/// Whether a document has at most `depth` levels, numbers that are whole, and no
/// key twice in one object.
pub open spec fn writable(d: Doc, depth: nat) -> bool
    decreases depth,
{
    match d {
        Doc::Number(n) => n is Some,
        Doc::List(items) => depth > 0 && forall|i: int|
            0 <= i < items.len() ==> writable(#[trigger] items[i], (depth - 1) as nat),
        Doc::Object(members) => depth > 0 && (forall|i: int|
            0 <= i < members.len() ==> writable((#[trigger] members[i]).1, (depth - 1) as nat)) && (
        forall|i: int, j: int|
            0 <= i < j < members.len() ==> (#[trigger] members[i]).0 != (#[trigger] members[j]).0),
        Doc::Deeper => false,
        _ => true,
    }
}

/// What a `serde_json::Value` says.
pub open spec fn said_by(value: serde_json::Value) -> Doc {
    doc(plain(value), MAX_LEVELS as nat)
}

/// The variant of `serde_json::Value` for each variant of a document, with what
/// it holds: numbers by `Value::from`, lists and objects item by item, in their
/// order. The value says what the document says. It would not where a number is
/// without a value, which becomes nothing at all, or where an object has a key
/// twice, which keeps the last.
#[verifier::external_body]
fn value_of(json: &Json) -> (r: serde_json::Value)
    requires
        writable(doc(*json, MAX_LEVELS as nat), MAX_LEVELS as nat),
    ensures
        said_by(r) == doc(*json, MAX_LEVELS as nat),
{
    match json {
        Json::Null => serde_json::Value::Null,
        Json::Bool(b) => serde_json::Value::Bool(*b),
        Json::Number(n) => serde_json::Value::from(*n),
        Json::Text(s) => serde_json::Value::String(s.clone()),
        Json::List(items) => serde_json::Value::Array(items.iter().map(value_of).collect()),
        Json::Object(members) => serde_json::Value::Object(
            members.iter().map(|(key, item)| (key.clone(), value_of(item))).collect(),
        ),
    }
}

/// Whether reading a text gives a document back.
pub open spec fn reads_as(text: Seq<char>, d: Doc) -> bool {
    document(encode_utf8(text)) matches Some(j) && doc(j, MAX_LEVELS as nat) == d
}

/// The text that `serde_json::to_string_pretty` writes for a value that says
/// this.
pub uninterp spec fn written(d: Doc) -> Seq<char>;

/// `serde_json::to_string_pretty` on a value whose numbers are whole and not
/// below zero, and which is not nested deeper than it is read: writing it does
/// not fail, since the keys of its objects are texts and the text grows in
/// memory. The text depends on what the value says alone, and
/// `serde_json::from_slice` reads out of it a value that says the same. The text
/// itself is left unsaid.
#[verifier::external_body]
fn write_value(value: &serde_json::Value) -> (r: Result<String, serde_json::Error>)
    requires
        writable(said_by(*value), MAX_LEVELS as nat),
    ensures
        r is Ok,
        r->Ok_0@ == written(said_by(*value)),
        reads_as(r->Ok_0@, said_by(*value)),
{
    serde_json::to_string_pretty(value)
}

/// What a `serde_json::Error` says.
pub uninterp spec fn error_words(error: serde_json::Error) -> Seq<char>;

/// `Display` for `serde_json::Error`, through `to_string`. The words are left
/// unsaid; they depend on the error alone.
#[verifier::external_body]
fn error_text(error: serde_json::Error) -> (r: String)
    ensures
        r@ == error_words(error),
{
    error.to_string()
}

/// The text that writes a document down, laid out for a reader.
pub(crate) fn write_document(json: &Json) -> (r: Result<String, String>)
    requires
        writable(doc(*json, MAX_LEVELS as nat), MAX_LEVELS as nat),
    ensures
        r matches Ok(text) && text@ == written(doc(*json, MAX_LEVELS as nat)) && reads_as(
            text@,
            doc(*json, MAX_LEVELS as nat),
        ),
{
    let value = value_of(json);
    match write_value(&value) {
        Ok(text) => Ok(text),
        Err(e) => Err(error_text(e)),
    }
}

/// What a text value says.
pub fn text_value(s: &str) -> (r: Json)
    ensures
        forall|d: nat| #[trigger] doc(r, d) == Doc::Text(s@),
{
    Json::Text(s.to_owned())
}

/// A number.
pub fn number_value(n: u64) -> (r: Json)
    ensures
        forall|d: nat| #[trigger] doc(r, d) == Doc::Number(Some(n)),
{
    Json::Number(Some(n))
}

/// What an optional text says: the text, or nothing.
pub open spec fn optional_doc(s: Option<Seq<char>>) -> Doc {
    match s {
        Some(t) => Doc::Text(t),
        None => Doc::Null,
    }
}

/// An optional text: the text, or nothing.
pub fn optional_value(s: &Option<String>) -> (r: Json)
    ensures
        forall|d: nat| #[trigger] doc(r, d) == optional_doc(text_view(*s)),
{
    match s {
        Some(t) => text_value(t.as_str()),
        None => Json::Null,
    }
}

/// Add a member to an object.
pub fn add_member(members: &mut Vec<(String, Json)>, key: &str, value: Json)
    ensures
        forall|d: nat| #[trigger]
            member_docs(final(members)@, d) == member_docs(old(members)@, d).push(
                (key@, doc(value, d)),
            ),
{
    let ghost before = members@;
    members.push((key.to_owned(), value));
    assert forall|d: nat| #[trigger] member_docs(members@, d) == member_docs(before, d).push(
        (key@, doc(value, d)),
    ) by {
        assert(member_docs(members@, d) =~= member_docs(before, d).push((key@, doc(value, d))));
    }
}

/// What an object has under a key is what stands first under it, and it has nothing
/// under a key that none of its members has.
pub proof fn the_first_of_a_key_is_found(members: Seq<(String, Json)>, key: Seq<char>, k: int)
    requires
        0 <= k <= members.len(),
    ensures
        match member_from(members, key, k) {
            Some(value) => exists|i: int|
                k <= i < members.len() && (#[trigger] members[i]).0@ == key && members[i].1 == value
                    && forall|j: int| k <= j < i ==> (#[trigger] members[j]).0@ != key,
            None => forall|j: int| k <= j < members.len() ==> (#[trigger] members[j]).0@ != key,
        },
    decreases members.len() - k,
{
    if k < members.len() {
        if members[k].0@ == key {
            assert(members[k].0@ == key && members[k].1 == member_from(members, key, k)->0);
        } else {
            the_first_of_a_key_is_found(members, key, k + 1);
            if let Some(value) = member_from(members, key, k) {
                let i = choose|i: int|
                    k + 1 <= i < members.len() && (#[trigger] members[i]).0@ == key && members[i].1
                        == value && forall|j: int|
                        k + 1 <= j < i ==> (#[trigger] members[j]).0@ != key;
                assert(members[i].0@ == key && members[i].1 == value);
            }
        }
    }
}

/// A text, a list or a number is read only from what is one: anything else under a
/// key is as good as nothing.
pub proof fn only_what_is_asked_for_is_read(j: Json, key: Seq<char>)
    ensures
        match member(j, key) {
            Some(Json::Text(s)) => text_at(j, key) == s@ && list_at(j, key) is None && number_at(
                j,
                key,
            ) is None,
            Some(Json::List(items)) => text_at(j, key).len() == 0 && list_at(j, key) == Some(items@)
                && number_at(j, key) is None,
            Some(Json::Number(n)) => text_at(j, key).len() == 0 && list_at(j, key) is None
                && number_at(j, key) == n,
            _ => text_at(j, key).len() == 0 && list_at(j, key) is None && number_at(j, key) is None,
        },
        !(j is Object) ==> member(j, key) is None,
{
}

} // verus!
