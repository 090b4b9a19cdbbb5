//! Model of a leniently parsed JSON document.
//!
//! Theme files are hand-authored, so they are read with a tolerant parser
//! that accepts comments and trailing commas. The parser's outcome is copied
//! into [`JsonValue`], the library's own shape, and everything that inspects
//! a document (schema probing, structural validation) is verified code over
//! that shape. Numeric payloads are not modeled: no rule of this library
//! reads a number's value.

use vstd::prelude::*;

verus! {

use std::string::String;
use std::vec::Vec;

/// A JSON document as this library sees it. Object members keep the order
/// the parser hands them out in; duplicate keys are kept, and lookups take
/// the first occurrence.
pub enum JsonValue {
    Null,
    Bool(bool),
    Number,
    Str(String),
    Array(Vec<JsonValue>),
    Object(Vec<(String, JsonValue)>),
}

/// What the lenient parser yields for a given text: `None` when the text is
/// not JSON even under the tolerant quirks, `Some` of the document's shape
/// otherwise.
pub uninterp spec fn json_of(text: Seq<char>) -> Option<JsonValue>;

#[verifier::external_type_specification]
#[verifier::external_body]
pub struct ExValue(serde_json_lenient::Value);

/// Relies on `serde_json_lenient::Value`: copies one parsed JSON node into
/// the library's model, one variant arm each, recursing into arrays and
/// objects. Numbers are mapped to the payload-free [`JsonValue::Number`].
#[verifier::external_body]
fn json_value_of(v: &serde_json_lenient::Value) -> JsonValue {
    match v {
        serde_json_lenient::Value::Null => JsonValue::Null,
        serde_json_lenient::Value::Bool(b) => JsonValue::Bool(*b),
        serde_json_lenient::Value::Number(_) => JsonValue::Number,
        serde_json_lenient::Value::String(s) => JsonValue::Str(s.clone()),
        serde_json_lenient::Value::Array(a) => JsonValue::Array(a.iter().map(json_value_of).collect()),
        serde_json_lenient::Value::Object(m) => JsonValue::Object(
            m.iter().map(|(k, x)| (k.clone(), json_value_of(x))).collect(),
        ),
    }
}

/// Relies on `serde_json_lenient::from_str_lenient`: parses JSON text with
/// every tolerance quirk on (comments, trailing commas, and the rest), a
/// deterministic function of the text alone.
#[verifier::external_body]
pub fn parse_json_lenient(text: &str) -> (r: Option<JsonValue>)
    ensures
        r == json_of(text@),
{
    match serde_json_lenient::from_str_lenient::<serde_json_lenient::Value>(text) {
        Ok(v) => Some(json_value_of(&v)),
        Err(_) => None,
    }
}

/// Relies on `str`'s `PartialEq`: two string slices are equal exactly when
/// their character sequences are.
#[verifier::external_body]
pub fn str_eq(a: &str, b: &str) -> (r: bool)
    ensures
        r == (a@ == b@),
{
    a == b
}

/// The first member of an object's field list whose key is `key`.
pub open spec fn spec_object_get(fields: Seq<(String, JsonValue)>, key: Seq<char>) -> Option<
    JsonValue,
>
    decreases fields.len(),
{
    if fields.len() == 0 {
        None
    } else if fields[0].0@ == key {
        Some(fields[0].1)
    } else {
        spec_object_get(fields.drop_first(), key)
    }
}

/// First-occurrence lookup of `key` among an object's members.
pub fn object_get<'a>(fields: &'a Vec<(String, JsonValue)>, key: &str) -> (r: Option<
    &'a JsonValue,
>)
    ensures
        match r {
            Some(v) => spec_object_get(fields@, key@) == Some(*v),
            None => spec_object_get(fields@, key@) is None,
        },
{
    let n: usize = fields.len();
    let mut i: usize = 0;
    proof {
        assert(fields@.skip(0) =~= fields@);
    }
    while i < n
        invariant
            0 <= i <= n,
            n == fields@.len(),
            spec_object_get(fields@, key@) == spec_object_get(fields@.skip(i as int), key@),
        decreases n - i,
    {
        let entry = &fields[i];
        if str_eq(entry.0.as_str(), key) {
            proof {
                assert(fields@.skip(i as int)[0] == fields@[i as int]);
            }
            return Some(&entry.1);
        }
        proof {
            assert(fields@.skip(i as int).drop_first() =~= fields@.skip(i + 1));
        }
        i = i + 1;
    }
    proof {
        assert(fields@.skip(n as int).len() == 0);
    }
    None
}

} // verus!
