//! Typed document objects with an open-ended extension bag: builders,
//! wire encoding into ordered key/value entries, and decoding back.
//!
//! An object goes on the wire as an ordered sequence of `(key, value)`
//! entries: its typed fields under their wire keys (absent optional fields
//! put nothing there), then its extensions in insertion order. Reading goes
//! the other way: recognised keys fill the typed fields, the last occurrence
//! winning, and every other key lands in the extension bag.
pub mod entries;
pub mod error;
pub mod extensions;
pub mod external_docs;
pub mod json;
pub mod tag;

pub use error::{ValueKind, WireError};
pub use external_docs::ExternalDocumentation;
pub use tag::Tag;
