//! The generic JSON value of the wire format, held opaque, and the few
//! facts of `serde_json` that the encoders and decoders rely on.
use crate::entries::{entries_view, insert_all, keys_unique, EntryView};
use serde_json::Value;
use vstd::prelude::*;

verus! {

#[verifier::external_type_specification]
#[verifier::external_body]
pub struct ExValue(serde_json::Value);

/// What `Value::as_str` gives for `v`: the text of a JSON string, or `None`.
pub uninterp spec fn json_str(v: Value) -> Option<Seq<char>>;

/// What `Value::as_object` gives for `v`: the entries of a JSON object in
/// map order, or `None`.
pub uninterp spec fn json_obj(v: Value) -> Option<Seq<EntryView>>;

/// Relies on `Value::String`, `Value::as_str` and `Value::as_object`: a
/// JSON string made from `s` reads back as `s` and is no object.
#[verifier::external_body]
pub(crate) fn json_from_string(s: String) -> (r: Value)
    ensures
        json_str(r) == Some(s@),
        json_obj(r) is None,
{
    Value::String(s)
}

/// Relies on `Value::as_str`: the text of a JSON string, `None` for any
/// other value.
#[verifier::external_body]
pub(crate) fn json_as_string(v: &Value) -> (r: Option<String>)
    ensures
        r is Some <==> json_str(*v) is Some,
        r matches Some(s) ==> json_str(*v) == Some(s@),
{
    v.as_str().map(|s| s.to_owned())
}

/// Relies on `Map`'s `FromIterator` (with `preserve_order`, each pair is
/// inserted in turn into an `IndexMap`, which keeps a repeated key in its
/// first place with the last value), `Value::Object`, `Value::as_object`
/// and `Value::as_str`.
#[verifier::external_body]
pub(crate) fn json_from_entries(e: Vec<(String, Value)>) -> (r: Value)
    ensures
        json_obj(r) == Some(insert_all(Seq::empty(), entries_view(e@))),
        json_str(r) is None,
{
    Value::Object(e.into_iter().collect())
}

/// Relies on `Value::as_object` and on the iteration of `Map`, which with
/// `preserve_order` walks the entries in map order, each key once.
#[verifier::external_body]
pub(crate) fn json_object_entries(v: &Value) -> (r: Option<Vec<(String, Value)>>)
    ensures
        r is Some <==> json_obj(*v) is Some,
        r matches Some(e) ==> json_obj(*v) == Some(entries_view(e@)) && keys_unique(
            entries_view(e@),
        ),
{
    v.as_object().map(|m| m.clone().into_iter().collect())
}

} // verus!
