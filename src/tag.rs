//! The tag object: a named grouping label for API operations, with an
//! optional description, optional external documentation, and extensions.
use crate::entries::{
    entries_view, has_key, insert_all, insert_entry, keys_unique, lemma_entries_view_append,
    lemma_entries_view_remove_first, lemma_insert_all_fresh, lemma_scan_err_sticky,
    lemma_scan_push, lemma_wire_keys_distinct, opt_view, scan, EntryView,
};
use crate::error::{ValueKind, WireError, WireErrorView};
use crate::extensions::{ext_entries, ext_insert, ext_into_entries, ext_new};
use crate::external_docs::{
    docs_decode, docs_encoded, docs_object, docs_opt_view, docs_wf, lemma_docs_round_trip,
    lemma_docs_wire_unique, str_entry, DocsView, ExternalDocumentation,
};
use crate::json::{
    json_as_string, json_from_entries, json_from_string, json_obj, json_object_entries, json_str,
};
use indexmap::IndexMap;
use serde_json::Value;
use vstd::prelude::*;

verus! {

/// Adds metadata to a single tag that is used by the Operation Object. It
/// is not mandatory to have a Tag Object per tag defined in the Operation
/// Object instances.
#[derive(Debug, PartialEq)]
pub struct Tag {
    /// REQUIRED. The name of the tag.
    pub name: String,
    /// A description for the tag.
    /// CommonMark syntax MAY be used for rich text representation.
    pub description: Option<String>,
    /// Additional external documentation for this tag.
    pub external_docs: Option<ExternalDocumentation>,
    /// Inline extensions to this object.
    pub extensions: IndexMap<String, Value>,
}

/// The mathematical counterpart of [`Tag`].
pub struct TagView {
    pub name: Seq<char>,
    pub description: Option<Seq<char>>,
    pub external_docs: Option<DocsView>,
    pub extensions: Seq<EntryView>,
}

impl View for Tag {
    type V = TagView;

    open spec fn view(&self) -> TagView {
        TagView {
            name: self.name@,
            description: opt_view(self.description),
            external_docs: docs_opt_view(self.external_docs),
            extensions: ext_entries(self.extensions),
        }
    }
}

/// A valid tag: extension keys are unique, none is a field's wire key, and
/// the external documentation, when present, is valid.
pub open spec fn tag_wf(t: TagView) -> bool {
    &&& keys_unique(t.extensions)
    &&& !has_key(t.extensions, "name"@)
    &&& !has_key(t.extensions, "description"@)
    &&& !has_key(t.extensions, "externalDocs"@)
    &&& (t.external_docs matches Some(d) ==> docs_wf(d))
}

/// The number of typed fields that `t` puts on the wire.
pub open spec fn tag_typed_len(t: TagView) -> int {
    1 + (if t.description is Some {
        1int
    } else {
        0int
    }) + (if t.external_docs is Some {
        1int
    } else {
        0int
    })
}

/// Entry `e` carries the key `k` and the JSON object made from `d`.
pub open spec fn obj_entry(e: EntryView, k: Seq<char>, d: DocsView) -> bool {
    &&& e.0 == k
    &&& (json_obj(e.1) matches Some(o) && docs_object(d, o))
}

/// `w` is the wire form of `t`: `name`, then `description` and
/// `externalDocs` when present, then the extensions in their order.
pub open spec fn tag_encoded(t: TagView, w: Seq<EntryView>) -> bool {
    let n = tag_typed_len(t);
    let nd = if t.description is Some {
        1int
    } else {
        0int
    };
    &&& w.len() == n + t.extensions.len()
    &&& str_entry(w[0], "name"@, t.name)
    &&& (t.description matches Some(s) ==> str_entry(w[1], "description"@, s))
    &&& (t.external_docs matches Some(d) ==> obj_entry(w[1 + nd], "externalDocs"@, d))
    &&& w.subrange(n, w.len() as int) == t.extensions
}

/// The fields gathered while reading wire entries.
pub struct TagFields {
    pub name: Option<Seq<char>>,
    pub description: Option<Seq<char>>,
    pub external_docs: Option<DocsView>,
    pub extensions: Seq<EntryView>,
}

pub open spec fn tag_start() -> TagFields {
    TagFields { name: None, description: None, external_docs: None, extensions: Seq::empty() }
}

/// Reading one entry: a recognised key must carry a value of its kind and
/// replaces what an earlier occurrence gave; any other key goes to the
/// extensions. A failure inside the external documentation is passed on.
pub open spec fn tag_step(p: TagFields, e: EntryView) -> Result<TagFields, WireErrorView> {
    if e.0 == "name"@ {
        match json_str(e.1) {
            Some(s) => Ok(TagFields { name: Some(s), ..p }),
            None => Err(WireErrorView::SchemaTypeMismatch(e.0, ValueKind::Str, e.1)),
        }
    } else if e.0 == "description"@ {
        match json_str(e.1) {
            Some(s) => Ok(TagFields { description: Some(s), ..p }),
            None => Err(WireErrorView::SchemaTypeMismatch(e.0, ValueKind::Str, e.1)),
        }
    } else if e.0 == "externalDocs"@ {
        match json_obj(e.1) {
            Some(o) => match docs_decode(o) {
                Ok(d) => Ok(TagFields { external_docs: Some(d), ..p }),
                Err(err) => Err(err),
            },
            None => Err(WireErrorView::SchemaTypeMismatch(e.0, ValueKind::Object, e.1)),
        }
    } else {
        Ok(TagFields { extensions: insert_entry(p.extensions, e.0, e.1), ..p })
    }
}

pub open spec fn tag_stepper() -> spec_fn(TagFields, EntryView) -> Result<TagFields, WireErrorView> {
    |p: TagFields, e: EntryView| tag_step(p, e)
}

/// Reading a tag from wire entries, left to right.
pub open spec fn tag_decode(es: Seq<EntryView>) -> Result<TagView, WireErrorView> {
    match scan(tag_start(), tag_stepper(), es) {
        Ok(p) => match p.name {
            Some(n) => Ok(
                TagView {
                    name: n,
                    description: p.description,
                    external_docs: p.external_docs,
                    extensions: p.extensions,
                },
            ),
            None => Err(WireErrorView::MissingRequiredField("name"@)),
        },
        Err(e) => Err(e),
    }
}

/// The fields gathered so far from a tag's parts.
pub open spec fn tag_fields(
    name: Option<String>,
    description: Option<String>,
    external_docs: Option<ExternalDocumentation>,
    extensions: IndexMap<String, Value>,
) -> TagFields {
    TagFields {
        name: opt_view(name),
        description: opt_view(description),
        external_docs: docs_opt_view(external_docs),
        extensions: ext_entries(extensions),
    }
}

/// A step that fails ends the whole reading with its error.
proof fn lemma_tag_stops(ev: Seq<EntryView>, i: int, p: TagFields)
    requires
        0 <= i < ev.len(),
        scan(tag_start(), tag_stepper(), ev.subrange(0, i)) == Ok::<TagFields, WireErrorView>(p),
        tag_step(p, ev[i]) is Err,
    ensures
        tag_decode(ev) matches Err(e) && tag_step(p, ev[i]) == Err::<TagFields, WireErrorView>(e),
{
    lemma_scan_push(tag_start(), tag_stepper(), ev, i);
    lemma_scan_err_sticky(tag_start(), tag_stepper(), ev, i + 1);
}

impl Default for Tag {
    fn default() -> (r: Self)
        ensures
            r@ == (TagView {
                name: Seq::empty(),
                description: None,
                external_docs: None,
                extensions: Seq::empty(),
            }),
    {
        Tag { name: String::new(), description: None, external_docs: None, extensions: ext_new() }
    }
}

impl Tag {
    /// Creates a tag with the given name; every optional field is absent and
    /// there are no extensions. Any name is accepted, the empty one too.
    pub fn new(name: &str) -> (r: Self)
        ensures
            r@ == (TagView {
                name: name@,
                description: None,
                external_docs: None,
                extensions: Seq::empty(),
            }),
    {
        let name = name.to_owned();
        Tag { name, description: None, external_docs: None, extensions: ext_new() }
    }

    /// Sets the description; every other field is kept.
    pub fn description(self, description: &str) -> (r: Self)
        ensures
            r@ == (TagView { description: Some(description@), ..self@ }),
    {
        let description = Some(description.to_owned());
        Tag { description, ..self }
    }

    /// Sets the external documentation; every other field is kept.
    pub fn external_docs(self, external_docs: ExternalDocumentation) -> (r: Self)
        ensures
            r@ == (TagView { external_docs: Some(external_docs@), ..self@ }),
    {
        Tag { external_docs: Some(external_docs), ..self }
    }

    /// Merges `extensions` into the extension bag, in order: a key already
    /// there takes the new value and keeps its place, a new key goes last.
    /// Keys are not checked against the wire keys of the typed fields.
    pub fn extensions(self, extensions: Vec<(String, Value)>) -> (r: Self)
        ensures
            r@ == (TagView {
                extensions: insert_all(self@.extensions, entries_view(extensions@)),
                ..self@
            }),
    {
        let ghost ev = entries_view(extensions@);
        let Tag { name, description, external_docs, extensions: mut bag } = self;
        let ghost start = ext_entries(bag);
        let mut rest = extensions;
        let n = rest.len();
        let mut i: usize = 0;
        while i < n
            invariant
                i <= n,
                n == ev.len(),
                ev == entries_view(extensions@),
                rest@.len() == n - i,
                entries_view(rest@) == ev.subrange(i as int, n as int),
                ext_entries(bag) == insert_all(start, ev.subrange(0, i as int)),
            decreases n - i,
        {
            proof {
                lemma_entries_view_remove_first(rest@);
                assert(ev.subrange(i as int, n as int).subrange(1, n - i) =~= ev.subrange(
                    i + 1,
                    n as int,
                ));
                assert(ev.subrange(0, i + 1).drop_last() =~= ev.subrange(0, i as int));
            }
            let (k, v) = rest.remove(0);
            ext_insert(&mut bag, k, v);
            i += 1;
        }
        proof {
            assert(ev.subrange(0, n as int) =~= ev);
        }
        Tag { name, description, external_docs, extensions: bag }
    }

    /// The wire entries of this tag: `name`, then `description` and
    /// `externalDocs` when present, then the extensions in their order.
    /// Absent fields put nothing on the wire.
    pub fn to_wire(self) -> (r: Vec<(String, Value)>)
        ensures
            tag_encoded(self@, entries_view(r@)),
    {
        let Tag { name, description, external_docs, extensions } = self;
        let mut w: Vec<(String, Value)> = Vec::new();
        w.push(("name".to_owned(), json_from_string(name)));
        match description {
            Some(s) => {
                w.push(("description".to_owned(), json_from_string(s)));
            },
            None => {},
        }
        match external_docs {
            Some(d) => {
                let ghost d0 = d@;
                let inner = d.to_wire();
                let ghost iw = entries_view(inner@);
                let obj = json_from_entries(inner);
                assert(docs_object(d0, insert_all(Seq::empty(), iw)));
                w.push(("externalDocs".to_owned(), obj));
            },
            None => {},
        }
        let mut more = ext_into_entries(extensions);
        let ghost typed = w@;
        let ghost tail = more@;
        w.append(&mut more);
        proof {
            lemma_entries_view_append(typed, tail);
            let ev = entries_view(w@);
            assert(ev.subrange(typed.len() as int, ev.len() as int) =~= entries_view(tail));
        }
        w
    }

    /// Reads a tag from wire entries, left to right. `name`, `description`
    /// and `externalDocs` fill the typed fields, a later occurrence replacing
    /// an earlier one; every other key goes to the extensions, in order of
    /// first appearance. The first value of the wrong kind, or a failure
    /// inside the external documentation, ends the reading with its error;
    /// a missing `name` is reported after the last entry.
    pub fn from_wire(entries: Vec<(String, Value)>) -> (r: Result<Self, WireError>)
        ensures
            r matches Ok(t) ==> tag_decode(entries_view(entries@)) == Ok::<
                TagView,
                WireErrorView,
            >(t@),
            r matches Err(e) ==> tag_decode(entries_view(entries@)) == Err::<
                TagView,
                WireErrorView,
            >(e@),
    {
        let ghost ev = entries_view(entries@);
        let key_name = "name".to_owned();
        let key_description = "description".to_owned();
        let key_docs = "externalDocs".to_owned();
        let mut name: Option<String> = None;
        let mut description: Option<String> = None;
        let mut external_docs: Option<ExternalDocumentation> = None;
        let mut extensions = ext_new();
        let mut rest = entries;
        let n = rest.len();
        let mut i: usize = 0;
        while i < n
            invariant
                i <= n,
                n == ev.len(),
                ev == entries_view(entries@),
                rest@.len() == n - i,
                entries_view(rest@) == ev.subrange(i as int, n as int),
                key_name@ == "name"@,
                key_description@ == "description"@,
                key_docs@ == "externalDocs"@,
                scan(tag_start(), tag_stepper(), ev.subrange(0, i as int)) == Ok::<
                    TagFields,
                    WireErrorView,
                >(tag_fields(name, description, external_docs, extensions)),
            decreases n - i,
        {
            let ghost p = tag_fields(name, description, external_docs, extensions);
            proof {
                lemma_scan_push(tag_start(), tag_stepper(), ev, i as int);
                lemma_entries_view_remove_first(rest@);
                assert(ev.subrange(i as int, n as int).subrange(1, n - i) =~= ev.subrange(
                    i + 1,
                    n as int,
                ));
            }
            let (k, v) = rest.remove(0);
            assert((k@, v) == ev[i as int]);
            if k == key_name {
                match json_as_string(&v) {
                    Some(s) => {
                        name = Some(s);
                    },
                    None => {
                        proof {
                            lemma_tag_stops(ev, i as int, p);
                        }
                        return Err(
                            WireError::SchemaTypeMismatch { key: k, expected: ValueKind::Str, actual: v },
                        );
                    },
                }
            } else if k == key_description {
                match json_as_string(&v) {
                    Some(s) => {
                        description = Some(s);
                    },
                    None => {
                        proof {
                            lemma_tag_stops(ev, i as int, p);
                        }
                        return Err(
                            WireError::SchemaTypeMismatch { key: k, expected: ValueKind::Str, actual: v },
                        );
                    },
                }
            } else if k == key_docs {
                match json_object_entries(&v) {
                    Some(inner) => match ExternalDocumentation::from_wire(inner) {
                        Ok(d) => {
                            external_docs = Some(d);
                        },
                        Err(e) => {
                            proof {
                                lemma_tag_stops(ev, i as int, p);
                            }
                            return Err(e);
                        },
                    },
                    None => {
                        proof {
                            lemma_tag_stops(ev, i as int, p);
                        }
                        return Err(
                            WireError::SchemaTypeMismatch {
                                key: k,
                                expected: ValueKind::Object,
                                actual: v,
                            },
                        );
                    },
                }
            } else {
                ext_insert(&mut extensions, k, v);
            }
            i += 1;
        }
        proof {
            assert(ev.subrange(0, n as int) =~= ev);
        }
        match name {
            Some(nm) => Ok(Tag { name: nm, description, external_docs, extensions }),
            None => Err(WireError::MissingRequiredField(key_name)),
        }
    }
}

/// The external documentation entry of the wire form of a valid tag reads
/// back as the tag's external documentation.
proof fn lemma_docs_entry_reads_back(e: EntryView, d: DocsView)
    requires
        docs_wf(d),
        obj_entry(e, "externalDocs"@, d),
    ensures
        json_obj(e.1) matches Some(o) && docs_decode(o) == Ok::<DocsView, WireErrorView>(d),
{
    let o = json_obj(e.1)->0;
    let w = choose|w: Seq<EntryView>| #[trigger] docs_encoded(d, w) && o == insert_all(Seq::empty(), w);
    lemma_docs_wire_unique(d, w);
    lemma_insert_all_fresh(w);
    lemma_docs_round_trip(d, w);
}

/// Reading the wire form of a valid tag: after the typed fields and `j`
/// extensions, the typed fields and those `j` extensions are gathered.
proof fn lemma_tag_scan_extensions(t: TagView, w: Seq<EntryView>, j: int)
    requires
        tag_wf(t),
        tag_encoded(t, w),
        0 <= j <= t.extensions.len(),
    ensures
        scan(tag_start(), tag_stepper(), w.subrange(0, tag_typed_len(t) + j)) == Ok::<
            TagFields,
            WireErrorView,
        >(
            TagFields {
                name: Some(t.name),
                description: t.description,
                external_docs: t.external_docs,
                extensions: t.extensions.subrange(0, j),
            },
        ),
    decreases j,
{
    lemma_wire_keys_distinct();
    let n = tag_typed_len(t);
    if j == 0 {
        let p0 = tag_start();
        assert(scan(tag_start(), tag_stepper(), w.subrange(0, 0)) == Ok::<
            TagFields,
            WireErrorView,
        >(p0));
        lemma_scan_push(tag_start(), tag_stepper(), w, 0);
        let p1 = TagFields { name: Some(t.name), ..p0 };
        assert(tag_step(p0, w[0]) == Ok::<TagFields, WireErrorView>(p1));
        let nd: int = if t.description is Some {
            1
        } else {
            0
        };
        let p2 = TagFields { description: t.description, ..p1 };
        if let Some(s) = t.description {
            lemma_scan_push(tag_start(), tag_stepper(), w, 1);
            assert(tag_step(p1, w[1]) == Ok::<TagFields, WireErrorView>(p2));
        }
        assert(scan(tag_start(), tag_stepper(), w.subrange(0, 1 + nd)) == Ok::<
            TagFields,
            WireErrorView,
        >(p2));
        if let Some(d) = t.external_docs {
            lemma_scan_push(tag_start(), tag_stepper(), w, 1 + nd);
            lemma_docs_entry_reads_back(w[1 + nd], d);
            assert(tag_step(p2, w[1 + nd]) == Ok::<TagFields, WireErrorView>(
                TagFields { external_docs: Some(d), ..p2 },
            ));
        }
        assert(t.extensions.subrange(0, 0) =~= Seq::<EntryView>::empty());
    } else {
        lemma_tag_scan_extensions(t, w, j - 1);
        lemma_scan_push(tag_start(), tag_stepper(), w, n + j - 1);
        let e = w[n + j - 1];
        assert(w.subrange(n, w.len() as int)[j - 1] == e);
        let before = t.extensions.subrange(0, j - 1);
        assert(!has_key(before, e.0)) by {
            if has_key(before, e.0) {
                let k = choose|k: int| 0 <= k < before.len() && #[trigger] before[k].0 == e.0;
                assert(t.extensions[k].0 == t.extensions[j - 1].0);
            }
        }
        assert(e.0 != "name"@);
        assert(e.0 != "description"@);
        assert(e.0 != "externalDocs"@);
        assert(insert_entry(before, e.0, e.1) =~= t.extensions.subrange(0, j));
    }
}

/// Round trip: reading back the wire form of a valid tag gives the tag,
/// field by field and with the extensions in the same order.
pub proof fn lemma_round_trip(t: TagView, w: Seq<EntryView>)
    requires
        tag_wf(t),
        tag_encoded(t, w),
    ensures
        tag_decode(w) == Ok::<TagView, WireErrorView>(t),
{
    lemma_tag_scan_extensions(t, w, t.extensions.len() as int);
    assert(w.subrange(0, w.len() as int) =~= w);
    assert(t.extensions.subrange(0, t.extensions.len() as int) =~= t.extensions);
}

/// Where a key stands on the wire: a key of `w` is `name`, `description`
/// when present, `externalDocs` when present, or an extension key.
proof fn lemma_wire_key_origin(t: TagView, w: Seq<EntryView>, i: int)
    requires
        tag_encoded(t, w),
        0 <= i < w.len(),
    ensures
        w[i].0 == "name"@ || (t.description is Some && w[i].0 == "description"@) || (
        t.external_docs is Some && w[i].0 == "externalDocs"@) || has_key(t.extensions, w[i].0),
{
    let n = tag_typed_len(t);
    if i >= n {
        assert(w.subrange(n, w.len() as int)[i - n] == w[i]);
        assert(t.extensions[i - n].0 == w[i].0);
    }
}

/// Omission: the wire form of a valid tag holds no entry for an optional
/// field that is absent.
pub proof fn lemma_omission(t: TagView, w: Seq<EntryView>)
    requires
        tag_wf(t),
        tag_encoded(t, w),
    ensures
        t.description is None ==> !has_key(w, "description"@),
        t.external_docs is None ==> !has_key(w, "externalDocs"@),
{
    lemma_wire_keys_distinct();
    assert forall|i: int| 0 <= i < w.len() implies (t.description is None ==> #[trigger] w[i].0
        != "description"@) && (t.external_docs is None ==> w[i].0 != "externalDocs"@) by {
        lemma_wire_key_origin(t, w, i);
    }
}

/// Renaming: the external documentation goes on the wire under
/// `externalDocs` only, never under its field name `external_docs`; and an
/// `external_docs` entry is read as an extension, not as the field.
pub proof fn lemma_renaming(t: TagView, w: Seq<EntryView>, p: TagFields, v: Value)
    requires
        tag_encoded(t, w),
        !has_key(t.extensions, "external_docs"@),
    ensures
        t.external_docs is Some ==> has_key(w, "externalDocs"@),
        !has_key(w, "external_docs"@),
        tag_step(p, ("external_docs"@, v)) == Ok::<TagFields, WireErrorView>(
            TagFields { extensions: insert_entry(p.extensions, "external_docs"@, v), ..p },
        ),
{
    lemma_wire_keys_distinct();
    if t.external_docs is Some {
        let nd: int = if t.description is Some {
            1
        } else {
            0
        };
        assert(w[1 + nd].0 == "externalDocs"@);
    }
    assert forall|i: int| 0 <= i < w.len() implies #[trigger] w[i].0 != "external_docs"@ by {
        lemma_wire_key_origin(t, w, i);
    }
}

/// Duplicate keys: the last occurrence wins. After entries whose reading
/// has not failed, a further `name` entry holding a JSON string sets the
/// name, and a further entry under any other key that is no field's wire
/// key takes that key's place in the extensions with the new value.
pub proof fn lemma_last_occurrence_wins(w: Seq<EntryView>, k: Seq<char>, v: Value)
    requires
        scan(tag_start(), tag_stepper(), w) is Ok,
    ensures
        (k == "name"@ && json_str(v) is Some) ==> (tag_decode(w.push((k, v))) matches Ok(t)
            && Some(t.name) == json_str(v)),
        (k != "name"@ && k != "description"@ && k != "externalDocs"@) ==> (tag_decode(
            w.push((k, v)),
        ) matches Ok(t) ==> t.extensions == insert_entry(
            scan(tag_start(), tag_stepper(), w)->Ok_0.extensions,
            k,
            v,
        )),
{
    assert(w.push((k, v)).drop_last() =~= w);
}

} // verus!
