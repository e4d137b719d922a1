//! What can go wrong when a document object is read from wire entries.
use serde_json::Value;
use vstd::prelude::*;

verus! {

/// The kind of JSON value a recognised field expects.
#[derive(Clone, Copy, Debug, PartialEq, Eq)]
pub enum ValueKind {
    Str,
    Object,
}

/// A failed read: a required field is absent, or a recognised key carries
/// a value of the wrong kind. Reading stops at the first failure.
#[derive(Debug, PartialEq)]
pub enum WireError {
    MissingRequiredField(String),
    SchemaTypeMismatch { key: String, expected: ValueKind, actual: Value },
}

/// The mathematical counterpart of [`WireError`].
pub enum WireErrorView {
    MissingRequiredField(Seq<char>),
    SchemaTypeMismatch(Seq<char>, ValueKind, Value),
}

impl View for WireError {
    type V = WireErrorView;

    open spec fn view(&self) -> WireErrorView {
        match self {
            WireError::MissingRequiredField(f) => WireErrorView::MissingRequiredField(f@),
            WireError::SchemaTypeMismatch { key, expected, actual } => {
                WireErrorView::SchemaTypeMismatch(key@, *expected, *actual)
            },
        }
    }
}

} // verus!
