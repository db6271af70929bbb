//! A tagged, JSON-shaped value wrapper with a total text projection.
//!
//! The value itself is carried as a `serde_json::Value`, which is opaque
//! here.  Its observable behaviour is modelled by named functions of the
//! value alone: its canonical compact serialization (`canon_of`), its
//! compact text (`canon_text_of`), and, for string values, the string's
//! characters (`string_content_of`).

use vstd::prelude::*;

verus! {

#[verifier::external_type_specification]
#[verifier::external_body]
pub struct ExJsonValue(serde_json::Value);

#[verifier::external_type_specification]
#[verifier::external_body]
pub struct ExJsonError(serde_json::Error);

/// Whether the bytes are a well-formed JSON document.
pub uninterp spec fn json_ok(b: Seq<u8>) -> bool;

/// The canonical serialization of the value parsed from the bytes
/// (meaningful when `json_ok` holds of them).
pub uninterp spec fn parsed_canon(b: Seq<u8>) -> Seq<u8>;

/// The canonical compact serialization of a JSON value.
pub uninterp spec fn canon_of(v: serde_json::Value) -> Seq<u8>;

/// The canonical compact serialization of a JSON value, as text.
pub uninterp spec fn canon_text_of(v: serde_json::Value) -> Seq<char>;

/// Whether the value is a JSON string.
pub uninterp spec fn is_string_value(v: serde_json::Value) -> bool;

/// The characters of a JSON string value (meaningful for string values).
pub uninterp spec fn string_content_of(v: serde_json::Value) -> Seq<char>;

/// The characters encoded by a JSON string literal, when the text is one.
pub uninterp spec fn unquoted(s: Seq<char>) -> Option<Seq<char>>;

/// The text that the bytes decode to as UTF-8, unpaired sequences replaced.
pub uninterp spec fn lossy_text_of(b: Seq<u8>) -> Seq<char>;

/// The canonical serialization of the JSON null value: the text `null`.
pub open spec fn null_canon() -> Seq<u8> {
    seq![110u8, 117u8, 108u8, 108u8]
}

/// Relies on `serde_json::from_slice::<Value>`: succeeds exactly on
/// well-formed JSON input, and the parse is a function of the bytes alone.
/// A parsed value sits within the parser's own nesting limit, so its
/// compact serialization parses back to an equal value.
#[verifier::external_body]
fn parse_value(b: &[u8]) -> (r: Result<serde_json::Value, serde_json::Error>)
    ensures
        r is Ok <==> json_ok(b@),
        r matches Ok(v) ==> canon_of(v) == parsed_canon(b@) && json_ok(canon_of(v))
            && parsed_canon(canon_of(v)) == canon_of(v),
{
    serde_json::from_slice(b)
}

/// Relies on `serde_json::to_vec` on a `Value`: it always succeeds (object
/// keys are strings and the writer is a `Vec`), and the compact output is a
/// function of the value alone.  Nothing more is promised of the output:
/// the serializer writes values of any nesting depth, while the parser
/// enforces a nesting limit, so not every serialization parses back.
#[verifier::external_body]
fn serialize_value(v: &serde_json::Value) -> (r: Result<Vec<u8>, serde_json::Error>)
    ensures
        r is Ok,
        r matches Ok(b) ==> b@ == canon_of(*v),
{
    serde_json::to_vec(v)
}

/// Relies on `serde_json::Value::is_null`: true exactly for the null value,
/// the one value whose compact serialization is the text `null`.
#[verifier::external_body]
fn value_is_null(v: &serde_json::Value) -> (r: bool)
    ensures
        r == (canon_of(*v) == null_canon()),
{
    v.is_null()
}

/// Relies on `serde_json::Value::as_str`: `Some` exactly for string values,
/// with the string's characters.
#[verifier::external_body]
fn value_as_string(v: &serde_json::Value) -> (r: Option<String>)
    ensures
        r is Some <==> is_string_value(*v),
        r matches Some(s) ==> s@ == string_content_of(*v),
{
    match v.as_str() {
        Some(s) => Some(s.to_string()),
        None => None,
    }
}

/// Relies on `serde_json::from_str::<String>`: decodes a JSON string
/// literal; the outcome is a function of the characters alone.
#[verifier::external_body]
fn decode_string_literal(s: &str) -> (r: Option<String>)
    ensures
        r is Some <==> unquoted(s@) is Some,
        r matches Some(u) ==> Some(u@) == unquoted(s@),
{
    match serde_json::from_str::<String>(s) {
        Ok(u) => Some(u),
        Err(_) => None,
    }
}

/// Relies on `serde_json::Value`'s `Display`: it writes exactly the bytes
/// of the compact `serde_json::to_vec` encoding, which are valid UTF-8, so
/// the text is also their (lossless) UTF-8 decoding.
#[verifier::external_body]
fn value_to_text(v: &serde_json::Value) -> (r: String)
    ensures
        r@ == canon_text_of(*v),
        r@ == lossy_text_of(canon_of(*v)),
{
    v.to_string()
}

/// Relies on the `serde_json::Value::String` constructor: a string value
/// with the given characters.  Its serialization is quoted, so it is not
/// the serialization of null; and the value is flat, so that serialization
/// parses back to an equal value.
#[verifier::external_body]
fn string_value(s: &str) -> (r: serde_json::Value)
    ensures
        is_string_value(r),
        string_content_of(r) == s@,
        canon_of(r) != null_canon(),
        json_ok(canon_of(r)),
        parsed_canon(canon_of(r)) == canon_of(r),
{
    serde_json::Value::String(s.to_string())
}

/// Relies on `String::from_utf8_lossy`: the decoded text is a function of
/// the bytes alone.
#[verifier::external_body]
pub(crate) fn lossy_utf8(b: &[u8]) -> (r: String)
    ensures
        r@ == lossy_text_of(b@),
{
    String::from_utf8_lossy(b).into_owned()
}

/// The compact serialization of the JSON true value: the text `true`.
pub open spec fn true_canon() -> Seq<u8> {
    seq![116u8, 114u8, 117u8, 101u8]
}

/// Relies on the `serde_json::Value::Bool` constructor: the JSON true
/// value.  It is not a string, its compact serialization is the text
/// `true`, that serialization is well-formed and parses back to an equal
/// value, and its compact text is `true`.
#[verifier::external_body]
pub(crate) fn bool_true_value() -> (r: serde_json::Value)
    ensures
        !is_string_value(r),
        canon_of(r) == true_canon(),
        json_ok(canon_of(r)),
        parsed_canon(canon_of(r)) == canon_of(r),
        canon_text_of(r) == "true"@,
{
    serde_json::Value::Bool(true)
}

/// Relies on `serde_json::Value`'s derived `Clone`: a deep copy equal to the
/// original.
pub assume_specification [ <serde_json::Value as Clone>::clone ](v: &serde_json::Value) -> (r:
    serde_json::Value)
    ensures
        r == *v,
;

/// The error raised when bytes that are not well-formed JSON are made into a
/// [`DynamicValue`].
#[derive(Debug, Clone, Copy, PartialEq, Eq, Structural)]
pub struct MalformedValue;

/// The total text projection of a JSON value: a string value is decoded as a
/// JSON string literal when it is one (quote removal) and kept verbatim
/// otherwise; every other value renders as its compact JSON text.
pub open spec fn text_of(v: serde_json::Value) -> Seq<char> {
    if is_string_value(v) {
        match unquoted(string_content_of(v)) {
            Option::Some(u) => u,
            Option::None => string_content_of(v),
        }
    } else {
        canon_text_of(v)
    }
}

/// A dynamic, JSON-shaped value for a component metadata entry.
pub struct DynamicValue {
    pub raw: serde_json::Value,
}

impl DynamicValue {
    /// The string representation of the value.  It never fails: a string
    /// value that is itself a JSON-encoded string is unquoted, any other
    /// string is returned as is, and every other value renders as its
    /// compact JSON text.
    pub fn to_str(&self) -> (r: String)
        ensures
            r@ == text_of(self.raw),
    {
        match value_as_string(&self.raw) {
            Some(s) => {
                match decode_string_literal(s.as_str()) {
                    Some(u) => u,
                    None => s,
                }
            },
            None => value_to_text(&self.raw),
        }
    }

    /// Parse raw bytes into a value; fails exactly when the bytes are not
    /// well-formed JSON.
    pub fn from_bytes(bytes: &[u8]) -> (r: Result<DynamicValue, MalformedValue>)
        ensures
            r is Ok <==> json_ok(bytes@),
            r matches Ok(dv) ==> canon_of(dv.raw) == parsed_canon(bytes@) && json_ok(
                canon_of(dv.raw),
            ) && parsed_canon(canon_of(dv.raw)) == canon_of(dv.raw),
    {
        match parse_value(bytes) {
            Ok(v) => Ok(DynamicValue { raw: v }),
            Err(_) => Err(MalformedValue),
        }
    }

    /// The canonical JSON serialization of the value.  It always succeeds.
    /// For a value built by [`DynamicValue::from_bytes`] or
    /// [`DynamicValue::from_text`], those constructors further promise that
    /// the serialization parses back to an equal value.
    pub fn as_bytes(&self) -> (r: Result<Vec<u8>, MalformedValue>)
        ensures
            r is Ok,
            r matches Ok(b) ==> b@ == canon_of(self.raw),
    {
        match serialize_value(&self.raw) {
            Ok(b) => Ok(b),
            Err(_) => Err(MalformedValue),
        }
    }

    /// Whether the value is the JSON null.
    pub fn is_null(&self) -> (r: bool)
        ensures
            r == (canon_of(self.raw) == null_canon()),
    {
        value_is_null(&self.raw)
    }

    /// A string value holding exactly the given characters.
    pub fn from_text(s: &str) -> (r: DynamicValue)
        ensures
            is_string_value(r.raw),
            string_content_of(r.raw) == s@,
            canon_of(r.raw) != null_canon(),
            json_ok(canon_of(r.raw)),
            parsed_canon(canon_of(r.raw)) == canon_of(r.raw),
    {
        DynamicValue { raw: string_value(s) }
    }
}

impl Clone for DynamicValue {
    fn clone(&self) -> (r: Self)
        ensures
            r == *self,
    {
        DynamicValue { raw: self.raw.clone() }
    }
}

/// Parsing bytes and re-serializing the parse reaches a canonical form:
/// the output parses back to a value equal to the original parse, and a
/// further round leaves the bytes unchanged.
pub fn canonical_reencode(bytes: &[u8]) -> (r: Option<Vec<u8>>)
    ensures
        r is Some <==> json_ok(bytes@),
        r matches Some(b) ==> b@ == parsed_canon(bytes@) && json_ok(b@) && parsed_canon(b@) == b@,
{
    match DynamicValue::from_bytes(bytes) {
        Ok(dv) => {
            match dv.as_bytes() {
                Ok(b) => Some(b),
                Err(_) => None,
            }
        },
        Err(_) => None,
    }
}

} // verus!
