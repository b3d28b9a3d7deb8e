//! Trusted boundary around serde_json: the JSON value type, names for what
//! its parsing and serialization return, and thin wrappers over the calls the
//! planner makes. Everything else in the crate is verified against the
//! contracts stated here.

use vstd::prelude::*;

verus! {

#[verifier::external_type_specification]
#[verifier::external_body]
pub struct ExValue(serde_json::Value);

/// What `serde_json::from_str::<Vec<Value>>` parses out of a text: the
/// elements of the JSON array, in order, when the text is one; `None`
/// otherwise. A function of the text alone.
pub uninterp spec fn json_array_of(s: Seq<char>) -> Option<Seq<serde_json::Value>>;

/// What `serde_json::from_str::<Value>` parses out of a text: the JSON value
/// it denotes, when it is valid JSON; `None` otherwise. A function of the
/// text alone.
pub uninterp spec fn json_value_of(s: Seq<char>) -> Option<serde_json::Value>;

/// What `Value::pointer` returns: the value a JSON Pointer path addresses
/// inside a value, when there is one. A function of the value and the path.
pub uninterp spec fn pointer_of(v: serde_json::Value, path: Seq<char>) -> Option<
    serde_json::Value,
>;

/// What `Value::as_str` returns: the characters of a JSON string value, and
/// `None` on every other kind of value.
pub uninterp spec fn as_str_of(v: serde_json::Value) -> Option<Seq<char>>;

/// What `Value::as_i64` returns: the value of a JSON integer that fits in an
/// `i64`, and `None` on every other value.
pub uninterp spec fn as_i64_of(v: serde_json::Value) -> Option<i64>;

/// What serializing a `Value` returns: its compact JSON text. A function of
/// the value alone.
pub uninterp spec fn text_of(v: serde_json::Value) -> Seq<char>;

/// Holds of every value the parser produced: such a value nests no deeper
/// than the parser's recursion limit and carries only numbers in the
/// parser's canonical form, so serializing it yields a text the parser
/// accepts again. A value built by other means need not satisfy it.
pub uninterp spec fn parsed(v: serde_json::Value) -> bool;

/// Relies on `serde_json::from_str::<Vec<Value>>`: it succeeds exactly when
/// the text is a JSON array, and then returns its elements in order; the
/// result is a function of the text alone, and every element is a value the
/// parser produced.
#[verifier::external_body]
pub(crate) fn parse_json_array(s: &str) -> (r: Option<Vec<serde_json::Value>>)
    ensures
        r is Some <==> json_array_of(s@) is Some,
        r matches Some(vs) ==> json_array_of(s@) == Some(vs@),
        r matches Some(vs) ==> forall|i: int| 0 <= i < vs@.len() ==> parsed(#[trigger] vs@[i]),
{
    serde_json::from_str::<Vec<serde_json::Value>>(s).ok()
}

/// Relies on `serde_json::Value::pointer`: a pure lookup of a JSON Pointer
/// path inside a value.
#[verifier::external_body]
pub(crate) fn value_pointer<'a>(v: &'a serde_json::Value, path: &str) -> (r: Option<
    &'a serde_json::Value,
>)
    ensures
        r is Some <==> pointer_of(*v, path@) is Some,
        r matches Some(t) ==> pointer_of(*v, path@) == Some(*t),
{
    v.pointer(path)
}

/// Relies on `serde_json::Value::as_str`: the contents of a JSON string
/// value, `None` on any other kind of value.
#[verifier::external_body]
pub(crate) fn value_as_str<'a>(v: &'a serde_json::Value) -> (r: Option<&'a str>)
    ensures
        r is Some <==> as_str_of(*v) is Some,
        r matches Some(s) ==> as_str_of(*v) == Some(s@),
{
    v.as_str()
}

/// Relies on `serde_json::Value::as_i64`: the value of a JSON integer that
/// fits in an `i64`, `None` otherwise.
#[verifier::external_body]
pub(crate) fn value_as_i64(v: &serde_json::Value) -> (r: Option<i64>)
    ensures
        r == as_i64_of(*v),
{
    v.as_i64()
}

/// Relies on `Display for serde_json::Value`: serialization to compact JSON
/// text, a function of the value alone, which serde_json — built with its
/// `float_roundtrip` feature, so floats parse correctly rounded — parses
/// back to an equal value. Only parser-produced values are admitted:
/// serialization recurses on the value's depth without a guard of its own,
/// and only such values are known to nest within the parser's limit.
#[verifier::external_body]
pub(crate) fn value_text(v: &serde_json::Value) -> (r: String)
    requires
        parsed(*v),
    ensures
        r@ == text_of(*v),
        json_value_of(r@) == Some(*v),
{
    v.to_string()
}

/// The `type` field of an item: the string at the top-level field named
/// `type`, when present and a string.
pub open spec fn item_type(v: serde_json::Value) -> Option<Seq<char>> {
    match pointer_of(v, "/type"@) {
        Some(t) => as_str_of(t),
        None => None,
    }
}

/// The journal identifier of an item: the integer at the field `id` nested
/// inside the object field `journal`, when present and representable as an
/// `i64`.
pub open spec fn item_id(v: serde_json::Value) -> Option<i64> {
    match pointer_of(v, "/journal/id"@) {
        Some(j) => as_i64_of(j),
        None => None,
    }
}

/// An item is well-formed when both required fields are present and of the
/// required kinds.
pub open spec fn item_ok(v: serde_json::Value) -> bool {
    item_type(v) is Some && item_id(v) is Some
}

} // verus!
