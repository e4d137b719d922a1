//! The external-documentation object: a required `url`, an optional
//! `description`, and extensions.
use crate::entries::{
    entries_view, has_key, insert_all, insert_entry, keys_unique, lemma_entries_view_append,
    lemma_entries_view_remove_first, lemma_scan_err_sticky, lemma_scan_push,
    lemma_wire_keys_distinct, opt_view, scan, EntryView,
};
use crate::error::{ValueKind, WireError, WireErrorView};
use crate::extensions::{ext_entries, ext_insert, ext_into_entries, ext_new};
use crate::json::{json_as_string, json_from_string, json_str};
use indexmap::IndexMap;
use serde_json::Value;
use vstd::prelude::*;

verus! {

/// Points at documentation kept outside the API description.
#[derive(Debug, PartialEq)]
pub struct ExternalDocumentation {
    /// A description of the target documentation.
    pub description: Option<String>,
    /// REQUIRED. The URL of the target documentation.
    pub url: String,
    /// Inline extensions to this object.
    pub extensions: IndexMap<String, Value>,
}

/// The mathematical counterpart of [`ExternalDocumentation`].
pub struct DocsView {
    pub description: Option<Seq<char>>,
    pub url: Seq<char>,
    pub extensions: Seq<EntryView>,
}

impl View for ExternalDocumentation {
    type V = DocsView;

    open spec fn view(&self) -> DocsView {
        DocsView {
            description: opt_view(self.description),
            url: self.url@,
            extensions: ext_entries(self.extensions),
        }
    }
}

/// The view of an optional object.
pub open spec fn docs_opt_view(o: Option<ExternalDocumentation>) -> Option<DocsView> {
    match o {
        Some(d) => Some(d@),
        None => None,
    }
}

/// A valid object: extension keys are unique and none is a field's wire key.
pub open spec fn docs_wf(d: DocsView) -> bool {
    &&& keys_unique(d.extensions)
    &&& !has_key(d.extensions, "description"@)
    &&& !has_key(d.extensions, "url"@)
}

/// Entry `e` carries the key `k` and a JSON string with text `s`.
pub open spec fn str_entry(e: EntryView, k: Seq<char>, s: Seq<char>) -> bool {
    e.0 == k && json_str(e.1) == Some(s)
}

/// The number of typed fields that `d` puts on the wire.
pub open spec fn docs_typed_len(d: DocsView) -> int {
    if d.description is Some {
        2
    } else {
        1
    }
}

/// `w` is the wire form of `d`: `description` when present, then `url`,
/// then the extensions in their order.
pub open spec fn docs_encoded(d: DocsView, w: Seq<EntryView>) -> bool {
    let n = docs_typed_len(d);
    &&& w.len() == n + d.extensions.len()
    &&& (d.description matches Some(s) ==> str_entry(w[0], "description"@, s))
    &&& str_entry(w[n - 1], "url"@, d.url)
    &&& w.subrange(n, w.len() as int) == d.extensions
}

/// `o` is what the JSON object made from `d` holds: the wire entries of `d`
/// inserted into a map in turn (the same as those entries when `d` is valid).
pub open spec fn docs_object(d: DocsView, o: Seq<EntryView>) -> bool {
    exists|w: Seq<EntryView>| #[trigger] docs_encoded(d, w) && o == insert_all(Seq::empty(), w)
}

/// The fields gathered while reading wire entries.
pub struct DocsFields {
    pub description: Option<Seq<char>>,
    pub url: Option<Seq<char>>,
    pub extensions: Seq<EntryView>,
}

pub open spec fn docs_start() -> DocsFields {
    DocsFields { description: None, url: None, extensions: Seq::empty() }
}

/// Reading one entry: a recognised key must carry a string and replaces
/// what an earlier occurrence gave; any other key goes to the extensions.
pub open spec fn docs_step(p: DocsFields, e: EntryView) -> Result<DocsFields, WireErrorView> {
    if e.0 == "description"@ {
        match json_str(e.1) {
            Some(s) => Ok(DocsFields { description: Some(s), ..p }),
            None => Err(WireErrorView::SchemaTypeMismatch(e.0, ValueKind::Str, e.1)),
        }
    } else if e.0 == "url"@ {
        match json_str(e.1) {
            Some(s) => Ok(DocsFields { url: Some(s), ..p }),
            None => Err(WireErrorView::SchemaTypeMismatch(e.0, ValueKind::Str, e.1)),
        }
    } else {
        Ok(DocsFields { extensions: insert_entry(p.extensions, e.0, e.1), ..p })
    }
}

pub open spec fn docs_stepper() -> spec_fn(DocsFields, EntryView) -> Result<DocsFields, WireErrorView> {
    |p: DocsFields, e: EntryView| docs_step(p, e)
}

/// Reading an object from wire entries, left to right.
pub open spec fn docs_decode(es: Seq<EntryView>) -> Result<DocsView, WireErrorView> {
    match scan(docs_start(), docs_stepper(), es) {
        Ok(p) => match p.url {
            Some(u) => Ok(DocsView { description: p.description, url: u, extensions: p.extensions }),
            None => Err(WireErrorView::MissingRequiredField("url"@)),
        },
        Err(e) => Err(e),
    }
}

/// The fields gathered so far from an object's parts.
pub open spec fn docs_fields(
    description: Option<String>,
    url: Option<String>,
    extensions: IndexMap<String, Value>,
) -> DocsFields {
    DocsFields {
        description: opt_view(description),
        url: opt_view(url),
        extensions: ext_entries(extensions),
    }
}

/// A step that fails ends the whole reading with its error.
proof fn lemma_docs_stops(ev: Seq<EntryView>, i: int, p: DocsFields)
    requires
        0 <= i < ev.len(),
        scan(docs_start(), docs_stepper(), ev.subrange(0, i)) == Ok::<DocsFields, WireErrorView>(p),
        docs_step(p, ev[i]) is Err,
    ensures
        docs_decode(ev) matches Err(e) && docs_step(p, ev[i]) == Err::<DocsFields, WireErrorView>(e),
{
    lemma_scan_push(docs_start(), docs_stepper(), ev, i);
    lemma_scan_err_sticky(docs_start(), docs_stepper(), ev, i + 1);
}

impl Default for ExternalDocumentation {
    fn default() -> (r: Self)
        ensures
            r@ == (DocsView { description: None, url: Seq::empty(), extensions: Seq::empty() }),
    {
        ExternalDocumentation { description: None, url: String::new(), extensions: ext_new() }
    }
}

impl ExternalDocumentation {
    /// The wire entries of this object: `description` when present, then
    /// `url`, then the extensions in their order.
    pub fn to_wire(self) -> (r: Vec<(String, Value)>)
        ensures
            docs_encoded(self@, entries_view(r@)),
    {
        let ExternalDocumentation { description, url, extensions } = self;
        let mut w: Vec<(String, Value)> = Vec::new();
        match description {
            Some(s) => {
                w.push(("description".to_owned(), json_from_string(s)));
            },
            None => {},
        }
        w.push(("url".to_owned(), json_from_string(url)));
        let mut more = ext_into_entries(extensions);
        let ghost typed = w@;
        let ghost tail = more@;
        w.append(&mut more);
        proof {
            lemma_entries_view_append(typed, tail);
            let ev = entries_view(w@);
            assert(ev.subrange(typed.len() as int, ev.len() as int) =~= entries_view(tail));
        }
        w
    }

    /// Reads an object from wire entries, left to right: `description` and
    /// `url` fill the typed fields, a later occurrence replacing an earlier
    /// one; every other key goes to the extensions. The first value that is
    /// not a JSON string under a recognised key ends the reading with its
    /// error; a missing `url` is reported after the last entry.
    pub fn from_wire(entries: Vec<(String, Value)>) -> (r: Result<Self, WireError>)
        ensures
            r matches Ok(d) ==> docs_decode(entries_view(entries@)) == Ok::<
                DocsView,
                WireErrorView,
            >(d@),
            r matches Err(e) ==> docs_decode(entries_view(entries@)) == Err::<
                DocsView,
                WireErrorView,
            >(e@),
    {
        let ghost ev = entries_view(entries@);
        let key_description = "description".to_owned();
        let key_url = "url".to_owned();
        let mut description: Option<String> = None;
        let mut url: Option<String> = None;
        let mut extensions = ext_new();
        let mut rest = entries;
        let n = rest.len();
        let mut i: usize = 0;
        while i < n
            invariant
                i <= n,
                n == ev.len(),
                ev == entries_view(entries@),
                rest@.len() == n - i,
                entries_view(rest@) == ev.subrange(i as int, n as int),
                key_description@ == "description"@,
                key_url@ == "url"@,
                scan(docs_start(), docs_stepper(), ev.subrange(0, i as int)) == Ok::<
                    DocsFields,
                    WireErrorView,
                >(docs_fields(description, url, extensions)),
            decreases n - i,
        {
            let ghost p = docs_fields(description, url, extensions);
            proof {
                lemma_scan_push(docs_start(), docs_stepper(), ev, i as int);
                lemma_entries_view_remove_first(rest@);
                assert(ev.subrange(i as int, n as int).subrange(1, n - i) =~= ev.subrange(
                    i + 1,
                    n as int,
                ));
            }
            let (k, v) = rest.remove(0);
            assert((k@, v) == ev[i as int]);
            if k == key_description {
                match json_as_string(&v) {
                    Some(s) => {
                        description = Some(s);
                    },
                    None => {
                        proof {
                            lemma_docs_stops(ev, i as int, p);
                        }
                        return Err(
                            WireError::SchemaTypeMismatch { key: k, expected: ValueKind::Str, actual: v },
                        );
                    },
                }
            } else if k == key_url {
                match json_as_string(&v) {
                    Some(s) => {
                        url = Some(s);
                    },
                    None => {
                        proof {
                            lemma_docs_stops(ev, i as int, p);
                        }
                        return Err(
                            WireError::SchemaTypeMismatch { key: k, expected: ValueKind::Str, actual: v },
                        );
                    },
                }
            } else {
                ext_insert(&mut extensions, k, v);
            }
            i += 1;
        }
        proof {
            assert(ev.subrange(0, n as int) =~= ev);
        }
        match url {
            Some(u) => Ok(ExternalDocumentation { description, url: u, extensions }),
            None => Err(WireError::MissingRequiredField(key_url)),
        }
    }
}

/// The entries of the wire form of a valid object carry distinct keys.
pub proof fn lemma_docs_wire_unique(d: DocsView, w: Seq<EntryView>)
    requires
        docs_wf(d),
        docs_encoded(d, w),
    ensures
        keys_unique(w),
{
    lemma_wire_keys_distinct();
    let n = docs_typed_len(d);
    assert forall|i: int, j: int|
        0 <= i < w.len() && 0 <= j < w.len() && i != j implies #[trigger] w[i].0
            != #[trigger] w[j].0 by {
        if i >= n {
            assert(w.subrange(n, w.len() as int)[i - n] == w[i]);
        }
        if j >= n {
            assert(w.subrange(n, w.len() as int)[j - n] == w[j]);
        }
    }
}

/// Reading the extension part of the wire form of a valid object: after
/// the typed fields and `j` extensions, those `j` extensions are gathered.
proof fn lemma_docs_scan_extensions(d: DocsView, w: Seq<EntryView>, j: int)
    requires
        docs_wf(d),
        docs_encoded(d, w),
        0 <= j <= d.extensions.len(),
    ensures
        scan(docs_start(), docs_stepper(), w.subrange(0, docs_typed_len(d) + j)) == Ok::<
            DocsFields,
            WireErrorView,
        >(
            DocsFields {
                description: d.description,
                url: Some(d.url),
                extensions: d.extensions.subrange(0, j),
            },
        ),
    decreases j,
{
    lemma_wire_keys_distinct();
    let n = docs_typed_len(d);
    if j == 0 {
        let p0 = docs_start();
        assert(scan(docs_start(), docs_stepper(), w.subrange(0, 0)) == Ok::<
            DocsFields,
            WireErrorView,
        >(p0));
        lemma_scan_push(docs_start(), docs_stepper(), w, 0);
        match d.description {
            Some(s) => {
                let p1 = DocsFields { description: Some(s), ..p0 };
                assert(docs_step(p0, w[0]) == Ok::<DocsFields, WireErrorView>(p1));
                lemma_scan_push(docs_start(), docs_stepper(), w, 1);
                assert(docs_step(p1, w[1]) == Ok::<DocsFields, WireErrorView>(
                    DocsFields { url: Some(d.url), ..p1 },
                ));
            },
            None => {
                assert(str_entry(w[0], "url"@, d.url));
                assert(docs_step(p0, w[0]) == Ok::<DocsFields, WireErrorView>(
                    DocsFields { url: Some(d.url), ..p0 },
                ));
            },
        }
        assert(d.extensions.subrange(0, 0) =~= Seq::<EntryView>::empty());
    } else {
        lemma_docs_scan_extensions(d, w, j - 1);
        lemma_scan_push(docs_start(), docs_stepper(), w, n + j - 1);
        let e = w[n + j - 1];
        assert(w.subrange(n, w.len() as int)[j - 1] == e);
        let before = d.extensions.subrange(0, j - 1);
        assert(!has_key(before, e.0)) by {
            if has_key(before, e.0) {
                let k = choose|k: int| 0 <= k < before.len() && #[trigger] before[k].0 == e.0;
                assert(d.extensions[k].0 == d.extensions[j - 1].0);
            }
        }
        assert(e.0 != "description"@);
        assert(e.0 != "url"@);
        assert(insert_entry(before, e.0, e.1) =~= d.extensions.subrange(0, j));
    }
}

/// Reading back the wire form of a valid object gives the object.
pub proof fn lemma_docs_round_trip(d: DocsView, w: Seq<EntryView>)
    requires
        docs_wf(d),
        docs_encoded(d, w),
    ensures
        docs_decode(w) == Ok::<DocsView, WireErrorView>(d),
{
    lemma_docs_scan_extensions(d, w, d.extensions.len() as int);
    assert(w.subrange(0, w.len() as int) =~= w);
    assert(d.extensions.subrange(0, d.extensions.len() as int) =~= d.extensions);
}

} // verus!
