//! JSON documents as trees of plain values.
//!
//! The text is read by `serde_json`; what it read is held here as a tree in
//! which a number keeps the decimal text that `serde_json` prints for it.
use vstd::prelude::*;
use crate::text::same_text;

verus! {

/// A JSON value.
#[derive(Debug)]
pub enum Json {
    Null,
    Flag(bool),
    /// A number, as its decimal text.
    Number(String),
    Text(String),
    Array(Vec<Json>),
    /// The members of an object, each name once.
    Object(Vec<(String, Json)>),
}

/// `serde_json::Value`: what `serde_json` reads, carried as it is.
#[verifier::external_type_specification]
#[verifier::external_body]
pub struct ExValue(serde_json::Value);

/// `serde_json::Error`: why `serde_json` rejected a text.
#[verifier::external_type_specification]
#[verifier::external_body]
pub struct ExJsonError(serde_json::Error);

/// The tree that a `serde_json::Value` holds.
pub uninterp spec fn value_contents(v: serde_json::Value) -> Json;

/// The document that `serde_json` reads from a text, as a tree; `None` for a
/// text that it rejects.
pub uninterp spec fn parsed_document(text: Seq<char>) -> Option<Json>;

/// `serde_json::from_str`, reading a `serde_json::Value`. The contract claims
/// only that the outcome is a function of the text: acceptance and the tree
/// read are those that `parsed_document` names.
#[verifier::external_body]
fn read_value(text: &str) -> (r: Result<serde_json::Value, serde_json::Error>)
    ensures
        match r {
            Ok(v) => parsed_document(text@) == Some(value_contents(v)),
            Err(_) => parsed_document(text@) is None,
        },
{
    serde_json::from_str::<serde_json::Value>(text)
}

/// Copies a `serde_json::Value` into a tree, variant by variant; a number is
/// copied as the text that `serde_json::Number` displays. The contract claims
/// only that the tree is the one `value_contents` names.
#[verifier::external_body]
fn contents_of(v: &serde_json::Value) -> (r: Json)
    ensures
        r == value_contents(*v),
{
    match v {
        serde_json::Value::Null => Json::Null,
        serde_json::Value::Bool(b) => Json::Flag(*b),
        serde_json::Value::Number(n) => Json::Number(n.to_string()),
        serde_json::Value::String(s) => Json::Text(s.clone()),
        serde_json::Value::Array(a) => Json::Array(a.iter().map(contents_of).collect()),
        serde_json::Value::Object(o) => Json::Object(
            o.iter().map(|(k, x)| (k.clone(), contents_of(x))).collect(),
        ),
    }
}

/// The value of the first member named `key` among `members`.
pub open spec fn member(members: Seq<(String, Json)>, key: Seq<char>) -> Option<Json>
    decreases members.len(),
{
    if members.len() == 0 {
        None
    } else if members[0].0@ == key {
        Some(members[0].1)
    } else {
        member(members.drop_first(), key)
    }
}

impl Json {
    /// The member named `key`, when the value is an object that has one.
    pub open spec fn field(self, key: Seq<char>) -> Option<Json> {
        match self {
            Json::Object(members) => member(members@, key),
            _ => None,
        }
    }

    /// The characters, when the value is a string.
    pub open spec fn text(self) -> Option<Seq<char>> {
        match self {
            Json::Text(s) => Some(s@),
            _ => None,
        }
    }

    /// The decimal text, when the value is a number.
    pub open spec fn number(self) -> Option<Seq<char>> {
        match self {
            Json::Number(s) => Some(s@),
            _ => None,
        }
    }

    /// The elements, when the value is an array.
    pub open spec fn items(self) -> Option<Seq<Json>> {
        match self {
            Json::Array(a) => Some(a@),
            _ => None,
        }
    }

    /// Reads a JSON text. The result is the document that `serde_json` reads
    /// from it, and `None` for a text that it rejects.
    pub fn parse(text: &str) -> (r: Option<Json>)
        ensures
            r == parsed_document(text@),
    {
        match read_value(text) {
            Ok(v) => Some(contents_of(&v)),
            Err(_) => None,
        }
    }

    /// The member named `key`, when the value is an object that has one.
    pub fn get(&self, key: &str) -> (r: Option<&Json>)
        ensures
            match r {
                Some(j) => self.field(key@) == Some(*j),
                None => self.field(key@) is None,
            },
    {
        match self {
            Json::Object(members) => {
                let n: usize = members.len();
                let mut i: usize = 0;
                assert(members@.subrange(0, n as int) == members@);
                while i < n
                    invariant
                        i <= n,
                        n == members.len(),
                        self.field(key@) == member(members@, key@),
                        member(members@, key@) == member(
                            members@.subrange(i as int, n as int),
                            key@,
                        ),
                    decreases n - i,
                {
                    let ghost rest = members@.subrange(i as int, n as int);
                    assert(rest[0] == members@[i as int]);
                    if same_text(members[i].0.as_str(), key) {
                        assert(member(rest, key@) == Some(rest[0].1));
                        return Some(&members[i].1);
                    }
                    assert(rest.drop_first() == members@.subrange(i + 1, n as int));
                    i = i + 1;
                }
                None
            },
            _ => None,
        }
    }

    /// The string, when the value is one.
    pub fn as_text(&self) -> (r: Option<&String>)
        ensures
            match r {
                Some(s) => self.text() == Some(s@),
                None => self.text() is None,
            },
    {
        match self {
            Json::Text(s) => Some(s),
            _ => None,
        }
    }

    /// The decimal text of the number, when the value is one.
    pub fn as_number(&self) -> (r: Option<&String>)
        ensures
            match r {
                Some(s) => self.number() == Some(s@),
                None => self.number() is None,
            },
    {
        match self {
            Json::Number(s) => Some(s),
            _ => None,
        }
    }

    /// The elements of the array, when the value is one.
    pub fn as_items(&self) -> (r: Option<&Vec<Json>>)
        ensures
            match r {
                Some(a) => self.items() == Some(a@),
                None => self.items() is None,
            },
    {
        match self {
            Json::Array(a) => Some(a),
            _ => None,
        }
    }
}

} // verus!
