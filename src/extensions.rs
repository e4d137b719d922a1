//! The extension bag of a document object: an `IndexMap` from vendor keys
//! to untyped JSON values, in insertion order.
use crate::entries::{entries_view, insert_entry, keys_unique, EntryView};
use indexmap::IndexMap;
use serde_json::Value;
use vstd::prelude::*;

verus! {

#[verifier::external_type_specification]
#[verifier::external_body]
#[verifier::reject_recursive_types(K)]
#[verifier::reject_recursive_types(V)]
#[verifier::reject_recursive_types(S)]
pub struct ExIndexMap<K, V, S>(indexmap::IndexMap<K, V, S>);

/// The entries of an extension bag, in insertion order.
pub uninterp spec fn ext_entries(m: IndexMap<String, Value>) -> Seq<EntryView>;

/// Relies on `IndexMap::new`: the new map is empty.
#[verifier::external_body]
pub(crate) fn ext_new() -> (r: IndexMap<String, Value>)
    ensures
        ext_entries(r) == Seq::<EntryView>::empty(),
{
    IndexMap::new()
}

/// Relies on `IndexMap::insert`: an existing key keeps its place and takes
/// the new value; a new key goes last. Keys stay unique.
#[verifier::external_body]
pub(crate) fn ext_insert(m: &mut IndexMap<String, Value>, k: String, v: Value)
    ensures
        ext_entries(*final(m)) == insert_entry(ext_entries(*old(m)), k@, v),
        keys_unique(ext_entries(*final(m))),
{
    m.insert(k, v);
}

/// Relies on `IndexMap`'s `into_iter`: the entries in insertion order, each
/// key once.
#[verifier::external_body]
pub(crate) fn ext_into_entries(m: IndexMap<String, Value>) -> (r: Vec<(String, Value)>)
    ensures
        entries_view(r@) == ext_entries(m),
        keys_unique(entries_view(r@)),
{
    m.into_iter().collect()
}

} // verus!
